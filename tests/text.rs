use pg_no_seqscan::config::{DetectionLevelEnum, FilterConfig};
use pg_no_seqscan::hooks::NoSeqscanHooks;
use pg_no_seqscan::report::{join_names, sort_texts, text_less};
use pg_no_seqscan::text::{
    char_is_whitespace, comma_separated_list_contains, contains_string, is_ignored_query_for_comment,
    parse_list, trim_str,
};

#[test]
fn parse_list_trims_and_drops_empty_entries() {
    assert_eq!(parse_list(" a, b ,,c ,"), vec!["a".to_string(), "b".to_string(), "c".to_string()]);
    assert!(parse_list("").is_empty());
    assert!(parse_list("  ,  ").is_empty());
    assert_eq!(parse_list("public"), vec!["public".to_string()]);
}

#[test]
fn list_contains_compares_trimmed_entries() {
    assert!(comma_separated_list_contains("foo, bar", "bar"));
    assert!(comma_separated_list_contains("foo,\tbar ", "bar"));
    assert!(!comma_separated_list_contains("foo, bar", "ba"));
    assert!(!comma_separated_list_contains("", ""));
    assert!(!comma_separated_list_contains("foo", "Foo"));
}

#[test]
fn trim_removes_unicode_whitespace() {
    assert_eq!(trim_str("\u{3000} x y\t\n"), "x y");
    assert_eq!(trim_str("   "), "");
    assert_eq!(trim_str("é"), "é");
    assert!(char_is_whitespace('\u{a0}'));
    assert!(!char_is_whitespace('x'));
}

#[test]
fn contains_string_matches_whole_entries() {
    let v = vec!["foo".to_string(), "bar".to_string()];
    assert!(contains_string(&v, "bar"));
    assert!(!contains_string(&v, "baz"));
}

#[test]
fn skip_marker_detection() {
    assert!(is_ignored_query_for_comment("select 1 /* pg_no_seqscan_skip */"));
    assert!(is_ignored_query_for_comment("/*pg_no_seqscan_skip*/ select 1"));
    assert!(!is_ignored_query_for_comment("select 1 -- pg_no_seqscan_skip"));
    assert!(!is_ignored_query_for_comment("select 1 /* other */"));
    assert!(!is_ignored_query_for_comment("select 'pg_no_seqscan_skip'"));
}

#[test]
fn texts_sort_by_code_point() {
    assert!(text_less(&"abc".to_string(), &"abd".to_string()));
    assert!(text_less(&"ab".to_string(), &"abc".to_string()));
    assert!(!text_less(&"abc".to_string(), &"abc".to_string()));
    assert!(text_less(&"Z".to_string(), &"a".to_string()));
    let v = vec!["foo".to_string(), "bar".to_string(), "baz".to_string(), "a".to_string()];
    assert_eq!(sort_texts(&v), vec![
        "a".to_string(),
        "bar".to_string(),
        "baz".to_string(),
        "foo".to_string(),
    ]);
    assert!(sort_texts(&vec![]).is_empty());
}

#[test]
fn join_names_one_per_line() {
    assert_eq!(join_names(&vec!["a".to_string(), "b".to_string()]), "a\nb");
    assert_eq!(join_names(&vec![]), "");
}

#[test]
fn filter_methods_follow_settings() {
    let config = FilterConfig::from_settings(DetectionLevelEnum::Warn, "db1", "s1, s2", "t1", "t2", "u1");
    let h = NoSeqscanHooks::new(config);
    assert!(h.is_checked_database("db1"));
    assert!(!h.is_checked_database("db2"));
    assert!(h.is_checked_schema("s2"));
    assert!(!h.is_checked_schema("public"));
    assert!(h.check_tables_options_is_set());
    assert!(h.is_checked_table("t1"));
    assert!(!h.is_checked_table("t2"));
    assert!(h.is_ignored_table("t2"));
    assert!(h.is_ignored_user("u1"));
    assert!(!h.is_ignored_user("u2"));
    let open = NoSeqscanHooks::new(FilterConfig::with_level(DetectionLevelEnum::Error));
    assert!(open.is_checked_database("any"));
    assert!(open.is_checked_schema("any"));
    assert!(!open.check_tables_options_is_set());
    assert!(open.is_checked_table("any"));
    assert!(!open.is_ignored_table("any"));
    assert!(h.should_report(false) == false);
}

#[test]
fn default_settings() {
    let config = FilterConfig::default();
    assert_eq!(config.level, DetectionLevelEnum::Error);
    assert_eq!(config.check_schemas, vec!["public".to_string()]);
    assert!(config.check_databases.is_empty());
    assert!(config.check_tables.is_empty());
    assert!(config.ignore_tables.is_empty());
    assert!(config.ignore_users.is_empty());
}
