use imsearch::similarity::{any_empty, check_comparable};
use imsearch::{EngineError, Histogram};

fn histogram(bins: &[u64]) -> Histogram {
    Histogram {
        bins: bins.to_vec(),
    }
}

#[test]
fn test_comparable_fingerprints() {
    let a = vec![histogram(&[1, 0, 0, 0, 0]), histogram(&[0, 1, 0, 0, 1])];
    let b = vec![histogram(&[0, 0, 3, 0, 0]), histogram(&[9, 0, 0, 0, 0])];
    assert_eq!(check_comparable(&a, &b), Ok(()));
    assert_eq!(check_comparable(&a, &a), Ok(()));
}

#[test]
fn test_channel_count_mismatch() {
    let a = vec![histogram(&[1, 0, 0, 0, 0]), histogram(&[0, 1, 0, 0, 1])];
    let b = vec![histogram(&[1, 0, 0, 0, 0])];
    assert_eq!(
        check_comparable(&a, &b),
        Err(EngineError::ChannelCountMismatch)
    );
    assert_eq!(
        check_comparable(&b, &a),
        Err(EngineError::ChannelCountMismatch)
    );
    assert_eq!(
        check_comparable(&a, &vec![]),
        Err(EngineError::ChannelCountMismatch)
    );
}

#[test]
fn test_fingerprints_without_channels() {
    assert_eq!(
        check_comparable(&vec![], &vec![]),
        Err(EngineError::InvalidChannelCount)
    );
}

#[test]
fn test_histogram_length_mismatch() {
    let a = vec![histogram(&[1, 0, 0, 0, 0]), histogram(&[0, 1, 0, 0, 1])];
    let b = vec![histogram(&[1, 0, 0, 0, 0]), histogram(&[0, 1, 0])];
    assert_eq!(
        check_comparable(&a, &b),
        Err(EngineError::HistogramLengthMismatch)
    );
    // A length mismatch is reported before an empty histogram.
    let c = vec![histogram(&[0, 0, 0, 0, 0]), histogram(&[0, 1, 0])];
    assert_eq!(
        check_comparable(&a, &c),
        Err(EngineError::HistogramLengthMismatch)
    );
}

#[test]
fn test_empty_histogram() {
    let a = vec![histogram(&[1, 0, 0, 0, 0]), histogram(&[0, 1, 0, 0, 1])];
    let b = vec![histogram(&[1, 0, 0, 0, 0]), histogram(&[0, 0, 0, 0, 0])];
    assert_eq!(check_comparable(&a, &b), Err(EngineError::EmptyHistogram));
    assert_eq!(check_comparable(&b, &a), Err(EngineError::EmptyHistogram));
    assert_eq!(check_comparable(&b, &b), Err(EngineError::EmptyHistogram));
    let none = vec![histogram(&[])];
    assert_eq!(
        check_comparable(&none, &none),
        Err(EngineError::EmptyHistogram)
    );
}

#[test]
fn test_any_empty() {
    assert!(!any_empty(&vec![]));
    assert!(!any_empty(&vec![histogram(&[0, 1])]));
    assert!(any_empty(&vec![histogram(&[0, 1]), histogram(&[0, 0])]));
    assert!(any_empty(&vec![histogram(&[])]));
}
