use asm_annotate::error::AnnotateError;
use asm_annotate::source_reader::{lines_of, SourceReader};

#[test]
fn test_apply_remaps() {
    let reader = SourceReader::new(&vec!["/old/prefix".to_string(), "/new/prefix".to_string()]).unwrap();
    assert_eq!(reader.apply_remaps("/old/prefix/file.c"), "/new/prefix/file.c");
    assert_eq!(reader.apply_remaps("/other/path/file.c"), "/other/path/file.c");

    let reader2 = SourceReader::new(&vec!["src".to_string(), "dist".to_string()]).unwrap();
    assert_eq!(reader2.apply_remaps("src/app/main.c"), "dist/app/main.c");
}

#[test]
fn test_read_line() {
    let mut reader = SourceReader::default();
    let path = "/tmp/dir/test.txt";
    reader.add_source(path, "Line 1\nLine 2\nLine 3".as_bytes());
    assert_eq!(reader.read_line(path, 1).unwrap().unwrap(), "Line 1");
    assert_eq!(reader.read_line(path, 2).unwrap().unwrap(), "Line 2");
    assert_eq!(reader.read_line(path, 3).unwrap().unwrap(), "Line 3");
    assert!(reader.read_line(path, 4).unwrap().is_none());
    assert!(reader.read_line(path, 0).unwrap().is_none());
}

#[test]
fn test_read_line_with_remap() {
    let mut reader = SourceReader::new(&vec!["/tmp/dir/old".to_string(), "/tmp/dir/new".to_string()]).unwrap();
    reader.add_source("/tmp/dir/new/test.txt", "Remapped Line 1".as_bytes());
    assert_eq!(reader.read_line("/tmp/dir/old/test.txt", 1).unwrap().unwrap(), "Remapped Line 1");
}

#[test]
fn remap_odd_count_is_invalid() {
    let r = SourceReader::new(&vec!["a".to_string()]);
    assert!(matches!(r, Err(AnnotateError::InvalidRemap)));
}

#[test]
fn remap_requires_whole_components() {
    let reader = SourceReader::new(&vec!["/old".to_string(), "/new".to_string()]).unwrap();
    assert_eq!(reader.apply_remaps("/older/file.c"), "/older/file.c");
    assert_eq!(reader.apply_remaps("/old"), "/new/");
}

#[test]
fn remap_first_match_wins() {
    let reader = SourceReader::new(&vec![
        "/a".to_string(),
        "/x".to_string(),
        "/a/b".to_string(),
        "/y".to_string(),
    ])
    .unwrap();
    assert_eq!(reader.apply_remaps("/a/b/c.c"), "/x/b/c.c");
}

#[test]
fn read_line_trims_trailing_whitespace_only() {
    let mut reader = SourceReader::default();
    reader.add_source("f.c", "  int x;   \r\nnext\n".as_bytes());
    assert_eq!(reader.read_line("f.c", 1).unwrap().unwrap(), "  int x;");
    assert_eq!(reader.read_line("f.c", 2).unwrap().unwrap(), "next");
    assert!(reader.read_line("f.c", 3).unwrap().is_none());
}

#[test]
fn read_line_of_invalid_utf8_line_is_error() {
    let mut reader = SourceReader::default();
    reader.add_source("bad.c", b"ok\n\xff\xfe\nafter");
    assert_eq!(reader.read_line("bad.c", 1).unwrap().unwrap(), "ok");
    assert!(matches!(reader.read_line("bad.c", 2), Err(AnnotateError::SourceRead { .. })));
    assert_eq!(reader.read_line("bad.c", 3).unwrap().unwrap(), "after");
    assert!(reader.read_line("bad.c", 0).unwrap().is_none());
    assert!(reader.read_line("unknown.c", 1).unwrap().is_none());
    assert_eq!(reader.line_or_empty("bad.c", 2), "");
}

#[test]
fn lines_split_like_buf_read() {
    let s = |v: &[&str]| v.iter().map(|x| Some(x.to_string())).collect::<Vec<_>>();
    assert_eq!(lines_of(b"a\nb\r\n\nc"), s(&["a", "b", "", "c"]));
    assert_eq!(lines_of(b"a\n"), s(&["a"]));
    assert_eq!(lines_of(b"a\r"), s(&["a\r"]));
    assert!(lines_of(b"").is_empty());
}
