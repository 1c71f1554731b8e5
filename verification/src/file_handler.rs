//! File paths and names as text.

use vstd::prelude::*;
use vstd::string::*;

verus! {

/// `path` with every backslash turned into a forward slash.
pub open spec fn with_forward_slashes(path: Seq<char>) -> Seq<char> {
    path.map_values(
        |c: char|
            if c == '\\' {
                '/'
            } else {
                c
            },
    )
}

/// Replaces the backslashes of a file path by forward slashes.
pub fn format_filepath(filepath: &str) -> (formatted: String)
    ensures
        formatted@ == with_forward_slashes(filepath@),
{
    let mut result = String::new();
    let mut segment_start: usize = 0;
    let mut i: usize = 0;
    let ghost path = filepath@;
    // The count of characters bounds the index that runs along with the loop.
    let length: usize = filepath.unicode_len();
    for c in it: filepath.chars()
        invariant
            path == filepath@,
            path.len() == length,
            it.seq() == path,
            i == it.index(),
            segment_start <= i,
            result@ == with_forward_slashes(path.take(segment_start as int)),
            forall|k: int| segment_start <= k < i ==> path[k] != '\\',
    {
        if c == '\\' {
            result.append(filepath.substring_char(segment_start, i));
            result.append("/");
            proof {
                reveal_strlit("/");
                assert(result@ =~= with_forward_slashes(path.take(i + 1)));
            }
            segment_start = i + 1;
        }
        i += 1;
    }
    result.append(filepath.substring_char(segment_start, i));
    proof {
        assert(result@ =~= with_forward_slashes(path));
    }
    result
}

/// Appends `string2` to `string1`.
pub fn append_string(string1: String, string2: String) -> (joined: String)
    ensures
        joined@ == string1@ + string2@,
{
    let mut result = String::new();
    result.append(string1.as_str());
    result.append(string2.as_str());
    assert(result@ =~= string1@ + string2@);
    result
}

/// The index of the last `mark` in `text`, if there is one.
pub open spec fn last_index_of(text: Seq<char>, mark: char) -> Option<int>
    decreases text.len(),
{
    if text.len() == 0 {
        None
    } else if text.last() == mark {
        Some(text.len() - 1)
    } else {
        last_index_of(text.drop_last(), mark)
    }
}

/// `last_index_of` finds a `mark` that no `mark` follows, and finds none only
/// where there is none.
pub proof fn lemma_last_index_of(text: Seq<char>, mark: char)
    ensures
        match last_index_of(text, mark) {
            Some(i) => 0 <= i < text.len() && text[i] == mark && forall|k: int|
                i < k < text.len() ==> text[k] != mark,
            None => forall|k: int| 0 <= k < text.len() ==> text[k] != mark,
        },
    decreases text.len(),
{
    if text.len() > 0 && text.last() != mark {
        let front = text.drop_last();
        lemma_last_index_of(front, mark);
        assert forall|k: int| 0 <= k < front.len() implies front[k] == text[k] by {}
        match last_index_of(front, mark) {
            Some(i) => {
                assert forall|k: int| i < k < text.len() implies text[k] != mark by {
                    if k < front.len() {
                        assert(front[k] != mark);
                    }
                }
            },
            None => {
                assert forall|k: int| 0 <= k < text.len() implies text[k] != mark by {
                    if k < front.len() {
                        assert(front[k] != mark);
                    }
                }
            },
        }
    }
}

/// The last segment of a path: what follows its last `/`, or all of it.
pub open spec fn last_segment(path: Seq<char>) -> Seq<char> {
    match last_index_of(path, '/') {
        Some(i) => path.skip(i + 1),
        None => path,
    }
}

/// The name of the file that a path leads to: the last segment of the path
/// up to its last `.`, or all of the segment where it has none.
pub open spec fn file_name(path: Seq<char>) -> Seq<char> {
    let segment = last_segment(path);
    match last_index_of(segment, '.') {
        Some(i) => segment.take(i),
        None => segment,
    }
}

/// Where the last segment of `text` begins, and where the last `.` of that
/// segment stands, after the first `seen` characters have been read.
spec fn scan_state(text: Seq<char>, seen: int) -> (int, Option<int>) {
    let read = text.take(seen);
    let start = match last_index_of(read, '/') {
        Some(i) => i + 1,
        None => 0,
    };
    let dot = match last_index_of(read.skip(start), '.') {
        Some(i) => Some(start + i),
        None => None,
    };
    (start, dot)
}

/// Reading one more character moves the scan as `extract_filename` does.
proof fn lemma_scan_step(text: Seq<char>, seen: int)
    requires
        0 <= seen < text.len(),
    ensures
        0 <= scan_state(text, seen).0 <= seen,
        scan_state(text, seen + 1) == (if text[seen] == '/' {
            (seen + 1, None::<int>)
        } else if text[seen] == '.' {
            (scan_state(text, seen).0, Some(seen))
        } else {
            scan_state(text, seen)
        }),
{
    let read = text.take(seen);
    let more = text.take(seen + 1);
    assert(more.drop_last() =~= read);
    assert(more.last() == text[seen]);
    lemma_last_index_of(read, '/');
    let start = scan_state(text, seen).0;
    if text[seen] == '/' {
        assert(more.skip(seen + 1) =~= Seq::<char>::empty());
    } else {
        assert(more.skip(start).drop_last() =~= read.skip(start));
        assert(more.skip(start).last() == text[seen]);
    }
}

/// Extracts the name of a file from its path: the directories in front and
/// the extension behind are cut off.
pub fn extract_filename(filepath: String) -> (name: String)
    ensures
        name@ == file_name(filepath@),
{
    let path: &str = filepath.as_str();
    let length: usize = path.unicode_len();
    let ghost text = filepath@;
    let mut start: usize = 0;
    let mut dot: Option<usize> = None;
    let mut i: usize = 0;
    proof {
        assert(text.take(0) =~= Seq::<char>::empty());
        assert(text.take(0).skip(0) =~= Seq::<char>::empty());
    }
    for c in it: path.chars()
        invariant
            text == path@,
            text.len() == length,
            it.seq() == text,
            i == it.index(),
            start == scan_state(text, i as int).0,
            match dot {
                Some(d) => scan_state(text, i as int).1 == Some(d as int),
                None => scan_state(text, i as int).1 is None,
            },
    {
        proof {
            lemma_scan_step(text, i as int);
        }
        if c == '/' {
            start = i + 1;
            dot = None;
        } else if c == '.' {
            dot = Some(i);
        }
        i += 1;
    }
    proof {
        assert(text.take(i as int) =~= text);
        lemma_last_index_of(text, '/');
        lemma_last_index_of(text.skip(start as int), '.');
    }
    let end: usize = match dot {
        Some(d) => d,
        None => length,
    };
    let name = String::from_str(path.substring_char(start, end));
    proof {
        let segment = last_segment(text);
        assert(segment == text.skip(start as int));
        assert(text.subrange(start as int, end as int) =~= file_name(text));
    }
    name
}

} // verus!
