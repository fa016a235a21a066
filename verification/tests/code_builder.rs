use bundler_core::code_builder::{Code, SourceMapHandle};

fn handle(id: u64) -> SourceMapHandle {
    SourceMapHandle { id }
}

#[test]
fn bytes_concatenate_in_call_order() {
    let mut code = Code::new();
    code.push_bytes(b"const a = 1;\n".to_vec());
    code.push_source(&b"let b = 2;\n".to_vec(), Some(handle(1)));
    code.push_bytes(b"export {};\n".to_vec());
    assert_eq!(
        code.source_code().as_slice(),
        b"const a = 1;\nlet b = 2;\nexport {};\n".as_slice()
    );
}

#[test]
fn empty_builder_has_no_source_map() {
    let code = Code::new();
    assert!(!code.has_source_map());
    assert!(code.source_code().is_empty());
    assert!(code.mappings().is_empty());
}

#[test]
fn only_synthetic_pushes_record_no_map() {
    let mut code = Code::new();
    code.push_bytes(b"a".to_vec());
    code.push_bytes(b"b".to_vec());
    assert!(!code.has_source_map());
}

#[test]
fn only_mapless_source_pushes_record_no_map() {
    let mut code = Code::new();
    code.push_source(&b"a".to_vec(), None);
    code.push_source(&b"b".to_vec(), None);
    assert!(!code.has_source_map());
}

#[test]
fn one_mapped_source_push_records_a_map() {
    let mut code = Code::new();
    code.push_bytes(b"glue();".to_vec());
    code.push_source(&b"original()".to_vec(), Some(handle(3)));
    code.push_bytes(b"more_glue();".to_vec());
    assert!(code.has_source_map());
}

#[test]
fn no_two_adjacent_markers_are_both_absent() {
    let mut code = Code::new();
    code.push_source(&b"a".to_vec(), Some(handle(1)));
    code.push_bytes(b"x".to_vec());
    code.push_bytes(b"y".to_vec());
    code.push_source(&b"b".to_vec(), None);
    code.push_source(&b"c".to_vec(), Some(handle(2)));
    code.push_bytes(b"z".to_vec());
    let mappings = code.mappings();
    for pair in mappings.windows(2) {
        assert!(pair[0].1.is_some() || pair[1].1.is_some());
    }
    assert_eq!(
        mappings.as_slice(),
        &[
            (0usize, Some(handle(1))),
            (1usize, None),
            (4usize, Some(handle(2))),
            (5usize, None),
        ]
    );
}

#[test]
fn push_code_splices_bytes_and_shifts_mappings() {
    let m1 = handle(1);
    let m2 = handle(2);
    let mut a = Code::new();
    a.push_source(&b"x".to_vec(), Some(m1));
    a.push_bytes(b"y".to_vec());
    let mut b = Code::new();
    b.push_source(&b"z".to_vec(), Some(m2));
    a.push_code(&b);
    assert_eq!(a.source_code().as_slice(), b"xyz".as_slice());
    assert_eq!(
        a.mappings().as_slice(),
        &[(0usize, Some(m1)), (1usize, None), (2usize, Some(m2))]
    );
}

#[test]
fn push_code_starting_synthetic_ends_open_section() {
    let mut b = Code::new();
    b.push_bytes(b"pre".to_vec());
    b.push_source(&b"orig".to_vec(), Some(handle(9)));
    assert_eq!(b.mappings().as_slice(), &[(3usize, Some(handle(9)))]);

    let mut a = Code::new();
    a.push_source(&b"x".to_vec(), Some(handle(1)));
    a.push_code(&b);
    assert_eq!(a.source_code().as_slice(), b"xpreorig".as_slice());
    assert_eq!(
        a.mappings().as_slice(),
        &[(0usize, Some(handle(1))), (1usize, None), (4usize, Some(handle(9)))]
    );
}

#[test]
fn push_code_of_markerless_code_is_synthetic() {
    let mut b = Code::new();
    b.push_bytes(b"glue".to_vec());
    let mut a = Code::new();
    a.push_source(&b"x".to_vec(), Some(handle(1)));
    a.push_code(&b);
    assert_eq!(a.source_code().as_slice(), b"xglue".as_slice());
    assert_eq!(a.mappings().as_slice(), &[(0usize, Some(handle(1))), (1usize, None)]);
}

#[test]
fn marker_offsets_strictly_increase() {
    let mut code = Code::new();
    code.push_source(&b"".to_vec(), Some(handle(1)));
    code.push_source(&b"a".to_vec(), Some(handle(2)));
    code.push_source(&b"".to_vec(), Some(handle(3)));
    code.push_bytes(b"x".to_vec());
    code.push_source(&b"b".to_vec(), Some(handle(4)));
    for pair in code.mappings().windows(2) {
        assert!(pair[0].0 < pair[1].0);
    }
}

#[test]
fn empty_mapped_fragment_is_replaced_by_the_next_marker() {
    let mut code = Code::new();
    code.push_source(&b"".to_vec(), Some(handle(1)));
    code.push_source(&b"x".to_vec(), Some(handle(2)));
    assert_eq!(code.mappings().as_slice(), &[(0usize, Some(handle(2)))]);
    assert_eq!(code.source_code().as_slice(), b"x".as_slice());
}

#[test]
fn empty_mapped_fragment_before_synthetic_leaves_no_marker() {
    let mut code = Code::new();
    code.push_source(&b"".to_vec(), Some(handle(1)));
    code.push_bytes(b"x".to_vec());
    assert!(code.mappings().is_empty());
    assert!(!code.has_source_map());
}

#[test]
fn empty_mapped_fragment_after_original_closes_cleanly() {
    let mut code = Code::new();
    code.push_source(&b"a".to_vec(), Some(handle(1)));
    code.push_source(&b"".to_vec(), Some(handle(2)));
    code.push_bytes(b"x".to_vec());
    assert_eq!(code.mappings().as_slice(), &[(0usize, Some(handle(1))), (1usize, None)]);
}

#[test]
fn push_code_replaces_a_marker_standing_at_the_seam() {
    let mut a = Code::new();
    a.push_source(&b"".to_vec(), Some(handle(1)));
    let mut b = Code::new();
    b.push_source(&b"z".to_vec(), Some(handle(2)));
    a.push_code(&b);
    assert_eq!(a.source_code().as_slice(), b"z".as_slice());
    assert_eq!(a.mappings().as_slice(), &[(0usize, Some(handle(2)))]);
}

#[test]
fn generate_source_map_emits_one_section_per_marker() {
    let mut code = Code::new();
    code.push_source(&b"a\n".to_vec(), Some(handle(1)));
    code.push_source(&b"b".to_vec(), Some(handle(2)));
    let map = code.generate_source_map();
    assert_eq!(map.sections.len(), code.mappings().len());
    assert_eq!(map.sections[0].offset.line, 0);
    assert_eq!(map.sections[0].offset.column, 0);
    assert_eq!(map.sections[0].map, Some(handle(1)));
    // Buffer "a\nb" with a marker at byte offset 2: the section offset is
    // line 1, column 0.
    assert_eq!(map.sections[1].offset.line, 1);
    assert_eq!(map.sections[1].offset.column, 0);
    assert_eq!(map.sections[1].map, Some(handle(2)));
}

#[test]
fn generate_source_map_offsets_never_decrease() {
    let mut code = Code::new();
    code.push_source(&b"line one\n".to_vec(), Some(handle(1)));
    code.push_bytes(b"synthetic\nglue".to_vec());
    code.push_source(&b"tail".to_vec(), Some(handle(2)));
    let map = code.generate_source_map();
    assert_eq!(map.sections.len(), 3);
    for pair in map.sections.windows(2) {
        let a = pair[0].offset;
        let b = pair[1].offset;
        assert!(a.line < b.line || (a.line == b.line && a.column <= b.column));
    }
    assert_eq!(map.sections[1].offset.line, 1);
    assert_eq!(map.sections[1].offset.column, 0);
    assert_eq!(map.sections[2].offset.line, 2);
    assert_eq!(map.sections[2].offset.column, 4);
}
