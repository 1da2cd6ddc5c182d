use code_memory::sql_literals::{normalize_identifier, normalize_sql};

#[test]
fn normalising_an_identifier_twice_changes_nothing() {
    for token in ["[Dbo]", "`Sessions`", "\"[x]\"", "MiXeD", "", "[]", "a]b"] {
        let once = normalize_identifier(token);
        assert_eq!(normalize_identifier(&once), once, "{token}");
    }
    assert_eq!(normalize_identifier("[Dbo]"), "dbo");
    assert_eq!(normalize_identifier("`Sessions`"), "sessions");
}

#[test]
fn statements_with_the_same_words_normalise_alike() {
    let a = "SELECT  id\n\tFROM   users ";
    let b = "\n SELECT id FROM\nusers";
    assert!(a.split_whitespace().eq(b.split_whitespace()));
    assert_eq!(normalize_sql(a), normalize_sql(b));
    assert_eq!(normalize_sql(a), "SELECT id FROM users");
}

#[test]
fn normalised_statements_are_single_spaced_and_stable() {
    for text in ["  a\u{a0}\u{2003}b  ", "x", "", " \n ", "a  b\tc"] {
        let once = normalize_sql(text);
        assert_eq!(normalize_sql(&once), once, "{text:?}");
        assert!(!once.starts_with(char::is_whitespace));
        assert!(!once.ends_with(char::is_whitespace));
        assert!(!once.contains("  "));
        assert!(once.chars().all(|c| c == ' ' || !c.is_whitespace()));
    }
}
