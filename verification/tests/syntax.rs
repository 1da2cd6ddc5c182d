use code_memory::syntax::{range_contains, ranges_equal};
use code_memory::syntax_tree::{node_utf16_range, node_utf8_range, parse_source, utf16_column};

#[test]
fn range_comparison_accepts_compact_and_expanded_single_line_shapes() {
    assert!(ranges_equal(&[2, 3, 8], &[2, 3, 2, 8]));
    assert!(range_contains(&[2, 1, 10], &[2, 3, 2, 8]));
}

#[test]
fn utf8_and_utf16_ranges_share_lines_but_not_non_ascii_columns() {
    let source = "const 한글 = 1;\n";
    let nodes = parse_source("typescript", "fixture.ts", source).unwrap();
    let identifier = nodes
        .iter()
        .filter(|node| node.start_byte == 6 && node.end_byte == 12)
        .last()
        .expect("identifier range");
    assert_eq!(node_utf8_range(identifier), vec![0, 6, 0, 12]);
    assert_eq!(node_utf16_range(source, identifier), vec![0, 6, 0, 8]);
}

#[test]
fn utf16_columns_count_surrogate_pairs_and_fall_back_to_the_byte_column() {
    let source = "a😀b\r\nx\n";
    assert_eq!(utf16_column(source, 0, 5), 3);
    assert_eq!(utf16_column(source, 0, 6), 4);
    assert_eq!(utf16_column(source, 0, 3), 3);
    assert_eq!(utf16_column(source, 1, 1), 1);
    assert_eq!(utf16_column(source, 7, 4), 4);
}
