use imsearch::histogram::{bin_range, histograms_equal, Histogram, BIN_COUNT};
use imsearch::{get_histogram, EngineError, PictureU8};

#[test]
fn test_histogram_creation() {
    let histogram = Histogram { bins: vec![] };
    assert_eq!(histogram.bins.len(), 0);
}

#[test]
fn test_histogram_bin_count() {
    let histogram = Histogram {
        bins: vec![10, 20, 15],
    };
    assert_eq!(histogram.bins.len(), 3);
}

#[test]
fn test_get_histogram() {
    // Create a sample PictureU8
    let picture_u8 = PictureU8 {
        lines: 1,
        columns: 3,
        data: vec![0, 255, 25, 99], // Sample image data
        color_channel_count: 2,
    };

    let histograms_u8 = get_histogram(&picture_u8).unwrap();

    assert_eq!(histograms_u8.len(), picture_u8.color_channel_count);

    // Assert the expected pixel counts in the histograms
    assert_eq!(histograms_u8[0].bins[0], 2);
    assert_eq!(histograms_u8[1].bins[1], 1);
    assert_eq!(histograms_u8[1].bins[4], 1);
}

#[test]
fn test_add_pixel_to_correct_bin() {
    // Create a histogram with 5 bins
    let mut histogram = Histogram::new();

    // Add pixels to the correct bins
    histogram.add_pixel_to_correct_bin(25);
    histogram.add_pixel_to_correct_bin(100);
    histogram.add_pixel_to_correct_bin(150);
    histogram.add_pixel_to_correct_bin(200);
    histogram.add_pixel_to_correct_bin(255);

    // Assert the pixel counts in the bins
    assert_eq!(histogram.bins[0], 1);
    assert_eq!(histogram.bins[1], 1);
    assert_eq!(histogram.bins[2], 1);
    assert_eq!(histogram.bins[3], 1);
    assert_eq!(histogram.bins[4], 1);
}

#[test]
fn test_new_histogram_is_all_zero() {
    let histogram = Histogram::new();
    assert_eq!(histogram.bins.len(), BIN_COUNT as usize);
    assert_eq!(histogram.bins, vec![0, 0, 0, 0, 0]);
    assert_eq!(histogram.total(), 0);
    assert!(histogram.is_empty());
}

#[test]
fn test_add_pixel_counts_zero_in_the_first_bin() {
    let mut histogram = Histogram::new();
    histogram.add_pixel_to_correct_bin(0);
    assert_eq!(histogram.bins, vec![1, 0, 0, 0, 0]);
}

#[test]
fn test_bin_boundaries() {
    let histogram = Histogram::new();
    assert_eq!(histogram.bin_index(51), Some(0));
    assert_eq!(histogram.bin_index(52), Some(1));
    assert_eq!(histogram.bin_index(102), Some(1));
    assert_eq!(histogram.bin_index(103), Some(2));
    assert_eq!(histogram.bin_index(153), Some(2));
    assert_eq!(histogram.bin_index(154), Some(3));
    assert_eq!(histogram.bin_index(204), Some(3));
    assert_eq!(histogram.bin_index(205), Some(4));
    assert_eq!(histogram.bin_index(255), Some(4));
    assert_eq!(histogram.bin_index(0), Some(0));
    assert_eq!(histogram.bin_index(1), Some(0));
}

#[test]
fn test_bin_ranges_of_five_bins() {
    assert_eq!(bin_range(5, 0), (0, 51));
    assert_eq!(bin_range(5, 1), (52, 102));
    assert_eq!(bin_range(5, 2), (103, 153));
    assert_eq!(bin_range(5, 3), (154, 204));
    assert_eq!(bin_range(5, 4), (205, 255));
}

#[test]
fn test_bin_ranges_of_other_bin_counts() {
    assert_eq!(bin_range(1, 0), (0, 255));
    assert_eq!(bin_range(3, 2), (171, 255));
    assert_eq!(bin_range(255, 0), (0, 1));
    assert_eq!(bin_range(255, 254), (255, 255));
    assert_eq!(bin_range(2, 1), (128, 254));
    assert_eq!(bin_range(300, 0), (0, 0));
    assert_eq!(bin_range(300, 7), (1, 0));
}

#[test]
fn test_every_value_has_its_bin_in_its_range() {
    let histogram = Histogram::new();
    for value in 0..=255u8 {
        let bin = histogram.bin_index(value).unwrap();
        let (lower, upper) = bin_range(5, bin);
        assert!(lower <= value as usize && value as usize <= upper);
    }
}

#[test]
fn test_values_without_a_bin_are_not_counted() {
    // Two bins are 127 wide and end at 254.
    let mut histogram = Histogram { bins: vec![0, 0] };
    assert_eq!(histogram.bin_index(254), Some(1));
    assert_eq!(histogram.bin_index(255), None);
    histogram.add_pixel_to_correct_bin(255);
    assert_eq!(histogram.bins, vec![0, 0]);
    histogram.add_pixel_to_correct_bin(127);
    histogram.add_pixel_to_correct_bin(128);
    assert_eq!(histogram.bins, vec![1, 1]);
}

#[test]
fn test_histogram_without_bins_counts_nothing() {
    let mut histogram = Histogram { bins: vec![] };
    assert_eq!(histogram.bin_index(0), None);
    histogram.add_pixel_to_correct_bin(0);
    assert_eq!(histogram.bins.len(), 0);
    assert_eq!(histogram.max_count(), 0);
    assert_eq!(histogram.total(), 0);
}

#[test]
fn test_more_bins_than_values() {
    let mut histogram = Histogram { bins: vec![0; 300] };
    assert_eq!(histogram.bin_index(0), Some(0));
    assert_eq!(histogram.bin_index(1), None);
    histogram.add_pixel_to_correct_bin(0);
    histogram.add_pixel_to_correct_bin(9);
    assert_eq!(histogram.total(), 1);
}

#[test]
fn test_total_and_max_count() {
    let histogram = Histogram {
        bins: vec![5, 10, 8, 3, 6],
    };
    assert_eq!(histogram.total(), 32);
    assert_eq!(histogram.max_count(), 10);
    assert!(!histogram.is_empty());
}

#[test]
fn test_total_does_not_overflow() {
    let histogram = Histogram {
        bins: vec![u64::MAX, u64::MAX, 1],
    };
    assert_eq!(histogram.total(), 2 * (u64::MAX as u128) + 1);
    assert_eq!(histogram.max_count(), u64::MAX);
}

#[test]
fn test_same_bins() {
    let a = Histogram {
        bins: vec![1, 2, 3],
    };
    let b = Histogram {
        bins: vec![1, 2, 3],
    };
    let c = Histogram {
        bins: vec![1, 2, 4],
    };
    let d = Histogram { bins: vec![1, 2] };
    assert!(a.same_bins(&b));
    assert!(!a.same_bins(&c));
    assert!(!a.same_bins(&d));
    assert!(histograms_equal(&vec![a.clone(), c.clone()], &vec![b, c.clone()]));
    assert!(!histograms_equal(&vec![a.clone()], &vec![c]));
    assert!(!histograms_equal(&vec![a], &vec![]));
}

#[test]
fn test_histogram_counts_every_sample() {
    let data: Vec<u8> = (0..=255u8).collect();
    let pic = PictureU8 {
        lines: 16,
        columns: 16,
        color_channel_count: 1,
        data,
    };
    let histograms = get_histogram(&pic).unwrap();
    assert_eq!(histograms[0].bins, vec![52, 51, 51, 51, 51]);
    assert_eq!(histograms[0].total(), 256);
}

#[test]
fn test_get_histogram_of_empty_picture() {
    let pic = PictureU8 {
        lines: 0,
        columns: 0,
        color_channel_count: 3,
        data: vec![],
    };
    let histograms = get_histogram(&pic).unwrap();
    assert_eq!(histograms.len(), 3);
    for histogram in &histograms {
        assert_eq!(histogram.bins, vec![0, 0, 0, 0, 0]);
    }
}

#[test]
fn test_get_histogram_without_channels() {
    let pic = PictureU8 {
        lines: 1,
        columns: 1,
        color_channel_count: 0,
        data: vec![1],
    };
    assert_eq!(get_histogram(&pic), Err(EngineError::InvalidChannelCount));
    let empty = PictureU8 {
        lines: 0,
        columns: 0,
        color_channel_count: 0,
        data: vec![],
    };
    assert_eq!(get_histogram(&empty), Err(EngineError::InvalidChannelCount));
}

#[test]
fn test_get_histogram_of_broken_pixel() {
    let pic = PictureU8 {
        lines: 1,
        columns: 2,
        color_channel_count: 3,
        data: vec![1, 2, 3, 4],
    };
    assert_eq!(get_histogram(&pic), Err(EngineError::MalformedBuffer));
}
