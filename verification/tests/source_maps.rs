use bundler_core::source_map::empty_map;
use bundler_core::SourcePos;

#[test]
fn empty_map_has_one_degenerate_token_and_no_sources() {
    let map = empty_map();
    assert_eq!(map.get_token_count(), 1);
    assert_eq!(map.get_source_count(), 0);
    let token = map.get_token(0).expect("the degenerate token");
    assert_eq!(token.get_dst_line(), 0);
    assert_eq!(token.get_dst_col(), 0);
    assert_eq!(token.get_src_line(), 0);
    assert_eq!(token.get_src_col(), 0);
    assert!(token.get_source().is_none());
    assert!(token.get_name().is_none());
}

#[test]
fn source_pos_counts_lines_and_columns() {
    let mut pos = SourcePos::new();
    pos.update(b"a\nb");
    assert_eq!(pos.line, 1);
    assert_eq!(pos.column, 1);
    pos.update(b"\n\n");
    assert_eq!(pos.line, 3);
    assert_eq!(pos.column, 0);
    pos.update(b"wide");
    assert_eq!(pos.line, 3);
    assert_eq!(pos.column, 4);
}

#[test]
fn source_pos_is_incremental() {
    let mut all_at_once = SourcePos::new();
    all_at_once.update(b"one\ntwo\nthree");
    let mut piecewise = SourcePos::new();
    piecewise.update(b"one\nt");
    piecewise.update(b"wo\nthr");
    piecewise.update(b"ee");
    assert_eq!(all_at_once, piecewise);
    assert_eq!(all_at_once.line, 2);
    assert_eq!(all_at_once.column, 5);
}
