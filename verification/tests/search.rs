use chloride::order::compare_hits;
use chloride::search::{
    matcher_step, MatcherStep,
    file_name_matches, glob_matches, is_smart_case_insensitive, is_valid_regex, plan, Hit, Kind,
    Query, DEFAULT_LIMIT,
};

#[test]
fn glob_semantics() {
    assert!(glob_matches("*.zip", "a.zip"));
    assert!(glob_matches("*.zip", ".zip"));
    assert!(!glob_matches("*.zip", "a.zip.bak"));
    assert!(glob_matches("a?c", "abc"));
    assert!(!glob_matches("a?c", "ac"));
    assert!(glob_matches("*", "anything"));
    assert!(glob_matches("*", ""));
    assert!(glob_matches("a*b*c", "axxbyyc"));
    assert!(!glob_matches("a*b*c", "axxbyy"));
    // Backtracking: the first `*` must give characters back.
    assert!(glob_matches("*ab", "aaab"));
    assert!(glob_matches("*a*a", "aa"));
    assert!(!glob_matches("", "x"));
    assert!(glob_matches("", ""));
}

#[test]
fn glob_star_spans_a_star_in_the_name() {
    assert!(glob_matches("*a", "*ba"));
    assert!(glob_matches("*x", "*ax"));
    assert!(glob_matches("*a", "*a"));
    assert!(glob_matches("a*", "a*b*"));
    assert!(!glob_matches("?", "**"));
}

#[test]
fn regex_validity_drives_the_default_mode() {
    assert!(is_valid_regex("TODO"));
    assert!(is_valid_regex("^pub fn"));
    assert!(!is_valid_regex("*.zip"));
    assert!(!is_valid_regex("*.rs"));
    assert!(!is_valid_regex("a("));
}

#[test]
fn plan_infers_the_kind_and_caps_results() {
    assert!(plan("TODO", ".").kind == Kind::Content);
    assert!(plan("^pub fn", ".").kind == Kind::Content);
    assert!(plan("*.zip", ".").kind == Kind::Files);
    assert_eq!(plan("TODO", ".").limit, Some(DEFAULT_LIMIT));
    assert_eq!(DEFAULT_LIMIT, 500);
}

#[test]
fn compare_hits_orders_names_then_recency_then_line() {
    let old: u128 = 0;
    let new: u128 = old + 60_000_000_000;
    let file = |p: &str| Hit::File { path: p.to_string() };
    let line = |p: &str, n: u64| Hit::Line {
        path: p.to_string(),
        line: n,
        text: "x".into(),
        context: false,
    };

    let ord = std::cmp::Ordering::Less;
    assert_eq!(compare_hits((&file("a"), old), (&line("a", 1), old)), ord);
    assert_eq!(compare_hits((&file("a"), new), (&file("b"), old)), ord);
    assert_eq!(compare_hits((&line("a", 1), old), (&line("a", 9), old)), ord);
    assert_eq!(compare_hits((&line("a", 9), old), (&line("b", 1), old)), ord);
}

#[test]
fn paths_order_by_component() {
    let file = |p: &str| Hit::File { path: p.to_string() };
    // `a/b` is inside `a`, so it sorts before the sibling name `a.b`.
    assert_eq!(
        compare_hits((&file("a/b"), 0), (&file("a.b"), 0)),
        std::cmp::Ordering::Less
    );
    assert_eq!(
        compare_hits((&file("ab"), 0), (&file("a/b"), 0)),
        std::cmp::Ordering::Greater
    );
    assert_eq!(
        compare_hits((&file("x"), 5), (&file("x"), 5)),
        std::cmp::Ordering::Equal
    );
}

#[test]
fn paths_that_differ_only_in_form_compare_equal() {
    let file = |p: &str| Hit::File { path: p.to_string() };
    let eq = std::cmp::Ordering::Equal;
    assert_eq!(compare_hits((&file("a/b/"), 0), (&file("a/b"), 0)), eq);
    assert_eq!(compare_hits((&file("a/./b"), 0), (&file("a/b"), 0)), eq);
    assert_eq!(compare_hits((&file("a//b"), 0), (&file("a/b"), 0)), eq);
    assert_eq!(compare_hits((&file("././a"), 0), (&file("./a"), 0)), eq);
    // A leading `.` is a component of its own, unlike `.` further in.
    assert_ne!(compare_hits((&file("./a"), 0), (&file("a"), 0)), eq);
}

#[test]
fn root_then_current_then_parent_then_names() {
    let file = |p: &str| Hit::File { path: p.to_string() };
    let lt = std::cmp::Ordering::Less;
    assert_eq!(compare_hits((&file("/x"), 0), (&file("./x"), 0)), lt);
    assert_eq!(compare_hits((&file("./x"), 0), (&file("-"), 0)), lt);
    assert_eq!(compare_hits((&file("../a"), 0), (&file("-"), 0)), lt);
    assert_eq!(compare_hits((&file("./x"), 0), (&file("../x"), 0)), lt);
    assert_eq!(compare_hits((&file("a"), 0), (&file("a/b"), 0)), lt);
    assert_eq!(compare_hits((&file("a/b"), 0), (&file("a/c/d"), 0)), lt);
}

#[test]
fn smart_case() {
    assert!(is_smart_case_insensitive("needle"));
    assert!(!is_smart_case_insensitive("Needle"));
    assert!(is_smart_case_insensitive("needle.rs"));
}

#[test]
fn file_names_match_by_substring_and_glob() {
    assert!(file_name_matches("zip", true, "Archive.ZIP"));
    assert!(!file_name_matches("zip", false, "Archive.ZIP"));
    assert!(file_name_matches("*.zip", true, "Archive.ZIP"));
    assert!(file_name_matches("main", true, "main.rs"));
    assert!(!file_name_matches("mian", true, "main.rs"));
}

#[test]
fn query_defaults() {
    let q = Query::new("needle", "/tmp", Kind::Both);
    assert!(q.hidden && !q.no_ignore);
    assert_eq!(q.limit, None);
    assert_eq!(q.context, 0);
    assert!(q.kind.wants_names() && q.kind.wants_content());
    assert!(!Kind::Files.wants_content());
    assert!(!Kind::Content.wants_names());
}

#[test]
fn a_pattern_that_is_no_regex_is_refused_only_for_contents() {
    assert_eq!(matcher_step(Kind::Files, false), MatcherStep::NotWanted);
    assert_eq!(matcher_step(Kind::Files, true), MatcherStep::NotWanted);
    assert_eq!(matcher_step(Kind::Content, true), MatcherStep::Use);
    assert_eq!(matcher_step(Kind::Both, true), MatcherStep::Use);
    assert_eq!(matcher_step(Kind::Both, false), MatcherStep::NamesOnly);
    assert_eq!(matcher_step(Kind::Content, false), MatcherStep::Refuse);
}
