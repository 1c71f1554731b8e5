use imsearch::file_handler::{append_string, extract_filename, format_filepath};

#[test]
fn file_handler_tests_test_extract_filename() {
    let result1 = extract_filename("src/tests/files/bird.xxx".to_string());
    let result2 = extract_filename("src/tests/files/bird".to_string());
    let result3 = extract_filename("bird".to_string());
    let result4 = extract_filename("bird.".to_string());
    let result5 = extract_filename("/bird".to_string());
    assert_eq!(result1, "bird");
    assert_eq!(result2, "bird");
    assert_eq!(result3, "bird");
    assert_eq!(result4, "bird");
    assert_eq!(result5, "bird");
}

#[test]
fn suchindex_tests_test_extract_filename() {
    let result1 = extract_filename("src/tests/files/bird.xxx".to_string());
    let result2 = extract_filename("src/tests/files/bird".to_string());
    let result3 = extract_filename("bird".to_string());
    let result4 = extract_filename("bird.".to_string());
    let result5 = extract_filename("/bird".to_string());
    assert_eq!(result1, "bird");
    assert_eq!(result2, "bird");
    assert_eq!(result3, "bird");
    assert_eq!(result4, "bird");
    assert_eq!(result5, "bird");
}

#[test]
fn test_extract_filename_of_documented_paths() {
    assert_eq!(extract_filename("/path/to/file.txt".to_string()), "file");
    assert_eq!(extract_filename("file.txt".to_string()), "file");
}

#[test]
fn test_extract_filename_cuts_only_the_last_extension() {
    assert_eq!(extract_filename("dir/archive.tar.gz".to_string()), "archive.tar");
}

#[test]
fn test_extract_filename_ignores_dots_in_directories() {
    assert_eq!(extract_filename("some.dir/file".to_string()), "file");
    assert_eq!(extract_filename("a.b/c.d/e.f".to_string()), "e");
}

#[test]
fn test_extract_filename_of_edge_paths() {
    assert_eq!(extract_filename("".to_string()), "");
    assert_eq!(extract_filename("dir/".to_string()), "");
    assert_eq!(extract_filename(".hidden".to_string()), "");
    assert_eq!(extract_filename("dir/.hidden".to_string()), "");
    assert_eq!(extract_filename("/".to_string()), "");
    assert_eq!(extract_filename(".".to_string()), "");
}

#[test]
fn test_extract_filename_with_wide_characters() {
    assert_eq!(extract_filename("bilder/vögel/grün.png".to_string()), "grün");
}

#[test]
fn test_format_filepath() {
    let filepath = "aaa\\bbb\\ccc\\ddd.xxx";
    let formatted = format_filepath(filepath);
    assert_eq!(formatted, "aaa/bbb/ccc/ddd.xxx");
}

#[test]
fn test_format_filepath_edges() {
    assert_eq!(format_filepath(""), "");
    assert_eq!(format_filepath("\\"), "/");
    assert_eq!(format_filepath("\\\\"), "//");
    assert_eq!(format_filepath("a/b"), "a/b");
    assert_eq!(format_filepath("\\a\\"), "/a/");
    assert_eq!(format_filepath("ä\\ö"), "ä/ö");
}

#[test]
fn test_format_filepath_keeps_the_length() {
    let filepath = "c:\\bilder\\vögel\\amsel.png";
    assert_eq!(
        format_filepath(filepath).chars().count(),
        filepath.chars().count()
    );
}

#[test]
fn test_append_string() {
    let result = append_string("Hello, ".to_string(), "world!".to_string());
    assert_eq!(result, "Hello, world!");
}

#[test]
fn test_append_string_edges() {
    assert_eq!(append_string("".to_string(), "".to_string()), "");
    assert_eq!(append_string("a".to_string(), "".to_string()), "a");
    assert_eq!(append_string("".to_string(), "b".to_string()), "b");
}
