use code_memory::adapter::{
    append_digest_component, bounded_message, import_outcome_rank, range_weight,
    SourceInventoryTimings, MAX_MESSAGE_BYTES,
};
use code_memory::digest::{
    import_site_set_digest, key_set_digest, sql_query_digest, summary_set_digest, to_hex,
    type_relation_set_digest, workspace_id,
};
use code_memory::model::ImportAuditOutcome;

#[test]
fn hex_is_lower_case_two_digits_per_byte() {
    assert_eq!(to_hex(&[0, 15, 255, 16]), "000fff10");
    assert_eq!(to_hex(&[]), "");
}

#[test]
fn import_site_digest_frames_sorted_distinct_keys() {
    let digest = import_site_set_digest(&["b".to_string(), "a".to_string(), "b".to_string()]);
    assert_eq!(
        to_hex(&digest),
        "ce70f0d46d1c0e5e44dda7deea2e35e6771cafc2fa60808cf9a7827914dae8fd"
    );
}

#[test]
fn type_relation_digest_of_no_keys_is_the_domain_alone() {
    assert_eq!(
        to_hex(&type_relation_set_digest(&[])),
        "59c94167fc5069e8b7a343392a5386120ba93dcfa70e96163aaf0a2caa4cb31e"
    );
    assert_eq!(
        to_hex(&type_relation_set_digest(&["k1".to_string()])),
        "2aa942599264ddbcc100702d8b800a883c71e4727e99ce8154cee7c65340eb88"
    );
}

#[test]
fn key_set_digest_ignores_order_and_repetition() {
    let a = key_set_digest(b"d\0", &["x".to_string(), "y".to_string()]);
    let b = key_set_digest(b"d\0", &["y".to_string(), "x".to_string(), "x".to_string()]);
    assert_eq!(a, b);
    assert_eq!(a.len(), 32);
    let c = key_set_digest(b"e\0", &["x".to_string(), "y".to_string()]);
    assert_ne!(a, c);
}

#[test]
fn sql_digest_collapses_whitespace_before_hashing() {
    assert_eq!(
        to_hex(&sql_query_digest("  SELECT  *\n\tFROM t ")),
        "bdd379b02821e0bc9d5bab29094f054ce781e1cd351e51bd8f6329c0799638d4"
    );
    assert_eq!(sql_query_digest("SELECT * FROM t"), sql_query_digest("SELECT *  FROM\nt"));
}

#[test]
fn summary_digest_frames_each_component() {
    let pairs = vec![
        ("u1".to_string(), "d1".to_string()),
        ("é".to_string(), String::new()),
    ];
    assert_eq!(
        to_hex(&summary_set_digest(&pairs)),
        "eca377740c9a54abd47f85c96f01e2cec95211411685d6b4db5eca5cbbfbd919"
    );
    assert_eq!(
        to_hex(&summary_set_digest(&[])),
        "e3b0c44298fc1c149afbf4c8996fb92427ae41e4649b934ca495991b7852b855"
    );
}

#[test]
fn workspace_identity_is_a_short_root_digest() {
    assert_eq!(workspace_id("/home/me/repo"), "ws-74b392f5c9822574");
}

#[test]
fn digest_components_are_length_prefixed_big_endian() {
    let mut bytes = vec![7u8];
    append_digest_component(&mut bytes, b"ab");
    assert_eq!(bytes, vec![7, 0, 0, 0, 0, 0, 0, 0, 2, b'a', b'b']);
    append_digest_component(&mut bytes, b"");
    assert_eq!(bytes.len(), 19);
}

#[test]
fn bounded_messages_keep_the_longest_utf8_prefix_that_fits() {
    assert_eq!(bounded_message("short"), "short");
    let long = "x".repeat(MAX_MESSAGE_BYTES + 10);
    assert_eq!(bounded_message(&long).len(), MAX_MESSAGE_BYTES);
    let wide = "é".repeat(MAX_MESSAGE_BYTES);
    let cut = bounded_message(&wide);
    assert_eq!(cut.len(), MAX_MESSAGE_BYTES);
    assert!(wide.starts_with(&cut));
    let odd = format!("a{}", "é".repeat(MAX_MESSAGE_BYTES));
    assert_eq!(bounded_message(&odd).len(), MAX_MESSAGE_BYTES - 1);
}

#[test]
fn import_outcomes_rank_in_audit_order() {
    assert_eq!(import_outcome_rank(ImportAuditOutcome::Internal), 0);
    assert_eq!(import_outcome_rank(ImportAuditOutcome::Ambiguous), 3);
    assert_eq!(import_outcome_rank(ImportAuditOutcome::MetadataUnavailable), 6);
}

#[test]
fn range_weights_measure_lines_then_columns() {
    assert_eq!(range_weight(&[4, 2, 9]), (0, 7));
    assert_eq!(range_weight(&[1, 5, 3, 2]), (2, -3));
    assert_eq!(range_weight(&[i32::MIN, 0, i32::MAX, 0]), (i32::MAX as i64, 0));
    assert_eq!(range_weight(&[1, 2]), (i64::MAX, i64::MAX));
}

#[test]
fn timings_merge_phase_by_phase() {
    let mut a = SourceInventoryTimings::default();
    a.source_load = 5;
    a.import_resolution = 1;
    let mut b = SourceInventoryTimings::default();
    b.source_load = 7;
    b.source_parse = 3;
    a.merge(b);
    assert_eq!(a.source_load, 12);
    assert_eq!(a.source_parse, 3);
    assert_eq!(a.import_resolution, 1);
}

#[test]
fn component_lists_that_concatenate_alike_frame_differently() {
    let framed = |parts: &[&[u8]]| {
        let mut bytes = b"domain".to_vec();
        for part in parts {
            append_digest_component(&mut bytes, part);
        }
        bytes
    };
    assert_ne!(framed(&[b"ab", b"c"]), framed(&[b"a", b"bc"]));
    assert_ne!(framed(&[b"abc"]), framed(&[b"abc", b""]));
    assert_eq!(framed(&[b"a", b"bc"]), framed(&[b"a", b"bc"]));
}
