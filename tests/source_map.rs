use kona_diagnostic::pos::Pos;
use kona_diagnostic::source_map::{LookupError, SourceMap};
use kona_diagnostic::span::Span;

fn pos(n: u32) -> Pos {
    Pos::from_u32(n)
}

fn info(map: &SourceMap, p: u32) -> (usize, usize, usize) {
    let i = map.lookup_pos_info(pos(p)).ok().expect("position should be found");
    (i.line(), i.col(), i.col_display())
}

#[test]
fn multi_byte_columns() {
    let mut map = SourceMap::new();
    let f = map.load_test_file(None, "λ = 1\n".to_string());
    let start = f.start_pos().to_u32();
    assert_eq!(info(&map, start), (1, 1, 0));
    assert_eq!(info(&map, start + 2), (1, 2, 1));
    assert_eq!(info(&map, start + 3), (1, 3, 2));
}

#[test]
fn wide_characters() {
    let mut map = SourceMap::new();
    let f = map.load_test_file(None, "你好\n".to_string());
    let start = f.start_pos().to_u32();
    assert_eq!(info(&map, start + 3), (1, 2, 2));
    assert_eq!(info(&map, start + 6), (1, 3, 4));
}

#[test]
fn tab_and_control_widths() {
    let mut map = SourceMap::new();
    let f = map.load_test_file(None, "\tx\u{1}y".to_string());
    let start = f.start_pos().to_u32();
    assert_eq!(info(&map, start + 1), (1, 2, 4));
    assert_eq!(info(&map, start + 2), (1, 3, 5));
    assert_eq!(info(&map, start + 3), (1, 4, 5));
}

#[test]
fn crlf_mixing() {
    let mut map = SourceMap::new();
    let f = map.load_test_file(None, "a\r\nb\rc\n".to_string());
    let start = f.start_pos().to_u32();
    assert_eq!(map.lookup_line_at_pos(pos(start)).ok().unwrap().line_number(), 1);
    assert_eq!(map.lookup_line_at_pos(pos(start + 2)).ok().unwrap().line_number(), 1);
    assert_eq!(map.lookup_line_at_pos(pos(start + 3)).ok().unwrap().line_number(), 2);
    assert_eq!(map.lookup_line_at_pos(pos(start + 5)).ok().unwrap().line_number(), 3);
    let line2 = map.lookup_line_at_pos(pos(start + 3)).ok().unwrap();
    assert_eq!(line2.span().start().to_u32(), start + 3);
    assert_eq!(line2.span().end().to_u32(), start + 5);
    assert_eq!(line2.source(), "b\r");
    let line3 = map.lookup_line_at_pos(pos(start + 5)).ok().unwrap();
    assert_eq!(line3.span().end().to_u32(), start + 7);
    assert_eq!(line3.source(), "c\n");
}

#[test]
fn dummy_position_query() {
    let mut map = SourceMap::new();
    map.load_test_file(None, "abc".to_string());
    assert!(matches!(map.lookup_pos_info(Pos::from_u32(0)), Err(LookupError::DummyPosOrSpan)));
    assert_eq!(map.contains_pos(Pos::from_u32(0)), Err(LookupError::DummyPosOrSpan));
}

#[test]
fn cross_file_span() {
    let mut map = SourceMap::new();
    let a = map.load_test_file(None, "abc".to_string());
    let b = map.load_test_file(None, "def".to_string());
    let span = Span::new(a.start_pos(), b.end_pos());
    assert!(matches!(map.lookup_file_at_span(span), Err(LookupError::SpanAcrossFiles)));
    assert_eq!(map.contains_span(span), Err(LookupError::SpanAcrossFiles));
}

#[test]
fn file_span_length_is_byte_length() {
    let mut map = SourceMap::new();
    let f = map.load_test_file(None, "λ = 1\n".to_string());
    assert_eq!(f.end_pos().to_u32() - f.start_pos().to_u32(), 7);
    assert_eq!(f.start_pos().to_u32(), 1);
}

#[test]
fn files_are_apart() {
    let mut map = SourceMap::new();
    let a = map.load_test_file(None, "abc".to_string());
    let b = map.load_test_file(None, "".to_string());
    let c = map.load_test_file(None, "x".to_string());
    assert_eq!(a.start_pos().to_u32(), 1);
    assert_eq!(a.end_pos().to_u32(), 4);
    assert_eq!(b.start_pos().to_u32(), 5);
    assert_eq!(b.end_pos().to_u32(), 5);
    assert_eq!(c.start_pos().to_u32(), 6);
    assert!(a.end_pos().to_u32() < b.start_pos().to_u32());
    assert!(b.end_pos().to_u32() < c.start_pos().to_u32());
}

#[test]
fn lookup_finds_owning_file() {
    let mut map = SourceMap::new();
    let a = map.load_test_file(Some("a".to_string()), "abc".to_string());
    let b = map.load_test_file(Some("b".to_string()), "defg".to_string());
    for p in a.start_pos().to_u32()..a.end_pos().to_u32() {
        let f = map.lookup_file_at_pos(pos(p)).ok().unwrap();
        assert_eq!(f.span(), a.span());
        assert!(f.span().contains(pos(p)));
    }
    for p in b.start_pos().to_u32()..b.end_pos().to_u32() {
        let f = map.lookup_file_at_pos(pos(p)).ok().unwrap();
        assert_eq!(f.span(), b.span());
        assert_eq!(f.name(), "b");
    }
    assert!(matches!(map.lookup_file_at_pos(a.end_pos()), Err(LookupError::OutOfRange)));
    assert!(matches!(map.lookup_file_at_pos(b.end_pos()), Err(LookupError::OutOfRange)));
}

#[test]
fn carriage_return_before_line_feed_has_no_width() {
    let mut map = SourceMap::new();
    let f = map.load_test_file(None, "a\r\nb".to_string());
    let start = f.start_pos().to_u32();
    assert_eq!(info(&map, start + 1), (1, 2, 1));
    assert_eq!(info(&map, start + 2), (1, 3, 1));
    assert_eq!(info(&map, start + 3), (2, 1, 0));
}

#[test]
fn lone_carriage_return_ends_line() {
    let mut map = SourceMap::new();
    let f = map.load_test_file(None, "a\rb".to_string());
    let start = f.start_pos().to_u32();
    assert_eq!(info(&map, start + 2), (2, 1, 0));
}

#[test]
fn find_local_file_by_path() {
    let mut map = SourceMap::new();
    assert!(map.find_local_file(&"/x.sml".to_string()).is_none());
    let a = map.load_local_file("/x.sml".to_string(), "abc".to_string());
    let found = map.find_local_file(&"/x.sml".to_string()).unwrap();
    assert_eq!(found.span(), a.span());
}

#[test]
fn empty_file_is_out_of_range() {
    let mut map = SourceMap::new();
    let f = map.load_test_file(None, "".to_string());
    assert!(f.is_empty());
    assert!(matches!(map.lookup_file_at_pos(f.start_pos()), Err(LookupError::OutOfRange)));
}

#[test]
fn lookup_in_empty_map_is_out_of_range() {
    let map = SourceMap::new();
    assert!(matches!(map.lookup_file_at_pos(pos(3)), Err(LookupError::OutOfRange)));
}

#[test]
fn lookup_source_slices_text() {
    let mut map = SourceMap::new();
    let f = map.load_test_file(None, "hello λ world".to_string());
    let start = f.start_pos().to_u32();
    let s = map.lookup_source(Span::new(pos(start), pos(start + 5))).ok().unwrap();
    assert_eq!(s, "hello");
    let s = map.lookup_source(Span::new(pos(start + 6), pos(start + 8))).ok().unwrap();
    assert_eq!(s, "λ");
    let s = map.lookup_source(Span::new(pos(start + 9), pos(start + 14))).ok().unwrap();
    assert_eq!(s, "world");
}

#[test]
fn lines_at_span() {
    let mut map = SourceMap::new();
    let f = map.load_test_file(None, "one\ntwo\nthree\n".to_string());
    let start = f.start_pos().to_u32();
    let lines = map.lookup_lines_at_span(Span::new(pos(start + 1), pos(start + 10))).ok().unwrap();
    assert_eq!(lines.len(), 3);
    assert_eq!(lines[0].line_number(), 1);
    assert_eq!(lines[2].line_number(), 3);
    assert_eq!(lines[1].source(), "two\n");
}

#[test]
fn line_and_column_law_holds_on_text() {
    let mut map = SourceMap::new();
    let text = "ab\ncλd\n";
    let f = map.load_test_file(None, text.to_string());
    let start = f.start_pos().to_u32();
    // 'd' is at byte 6: line 2, after "cλ", two characters.
    assert_eq!(info(&map, start + 6), (2, 3, 2));
    let line = map.lookup_line_at_pos(pos(start + 6)).ok().unwrap();
    assert!(line.span().contains(pos(start + 6)));
}

#[test]
fn next_character_advances_columns() {
    let mut map = SourceMap::new();
    let f = map.load_test_file(None, "a你\tb".to_string());
    let start = f.start_pos().to_u32();
    let (_, c0, d0) = info(&map, start + 1);
    let (_, c1, d1) = info(&map, start + 4);
    assert_eq!((c1 - c0, d1 - d0), (1, 2));
    let (_, c2, d2) = info(&map, start + 5);
    assert_eq!((c2 - c1, d2 - d1), (1, 4));
}

#[test]
fn from_string_names_file() {
    let map = SourceMap::from_string("x = 1".to_string());
    let f = map.lookup_file_at_pos(pos(1)).ok().unwrap();
    assert_eq!(f.name(), "<string>");
    assert!(f.is_test_file());
    assert!(!f.is_local_file());
}

#[test]
fn unnamed_virtual_files_are_numbered() {
    let mut map = SourceMap::new();
    let a = map.load_test_file(None, "a".to_string());
    let b = map.load_test_file(None, "b".to_string());
    assert_eq!(a.name(), "virtual #0");
    assert_eq!(b.name(), "virtual #1");
}

#[test]
fn local_files_load_once() {
    let mut map = SourceMap::new();
    let a = map.load_local_file("/src/main.sml".to_string(), "val x = 1".to_string());
    let b = map.load_local_file("/src/main.sml".to_string(), "val x = 1".to_string());
    assert_eq!(a.span(), b.span());
    assert!(a.is_local_file());
    assert_eq!(a.name(), "/src/main.sml");
    assert_eq!(a.name_in("/src"), "main.sml");
    let c = map.load_local_file("/src/other.sml".to_string(), "y".to_string());
    assert!(c.start_pos().to_u32() > a.end_pos().to_u32());
}

#[test]
fn from_file_holds_one_file() {
    let map = SourceMap::from_file("/a/b.sml".to_string(), "abc".to_string());
    let f = map.lookup_file_at_pos(pos(2)).ok().unwrap();
    assert_eq!(*f.src(), "abc");
}
