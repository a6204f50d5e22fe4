use chloride::api::{
    apply_refresh, endpoint, ensure_token, failure_message, file_endpoint, is_unauthorized,
    refresh_on_401, reply_step, ReplyStep, StorageInfo, TokenStep, FILES_PATH, REGENERATE_SUFFIX,
};
use chloride::config::{Config, UserInfo, DEFAULT_BASE_URL};
use chloride::paths::{join_path, parent_of, trim_trailing_slashes};

fn user(email: &str) -> UserInfo {
    UserInfo { id: 1, email: email.into(), role: None, plan: Some("free".into()) }
}

#[test]
fn default_config_points_at_the_public_server() {
    let c = Config::default();
    assert_eq!(c.base_url, DEFAULT_BASE_URL);
    assert_eq!(c.base_url, "https://chloride.carbonkit.tech");
    assert!(!c.is_logged_in());
}

#[test]
fn logout_forgets_tokens_but_not_the_server() {
    let mut c = Config::default();
    c.base_url = "http://x".into();
    c.token = Some("t".into());
    c.refresh_token = Some("r".into());
    c.user = Some(user("a@b"));
    assert!(c.is_logged_in());
    c.logout();
    assert!(c.token.is_none() && c.refresh_token.is_none() && c.user.is_none());
    assert_eq!(c.base_url, "http://x");
}

#[test]
fn endpoints_drop_trailing_slashes() {
    assert_eq!(endpoint("https://h//", FILES_PATH), "https://h/api/files/my-files");
    assert_eq!(endpoint("https://h", "/api/x"), "https://h/api/x");
    assert_eq!(file_endpoint("https://h/", 42, REGENERATE_SUFFIX), "https://h/api/files/42/regenerate-urls");
    assert_eq!(file_endpoint("https://h", -7, ""), "https://h/api/files/-7");
    assert_eq!(file_endpoint("h", i64::MIN, ""), "h/api/files/-9223372036854775808");
}

#[test]
fn ensure_token_prefers_the_access_token() {
    let mut c = Config::default();
    match ensure_token(&c) {
        TokenStep::Refused(m) => assert_eq!(m, "Not logged in. Run `cl login`."),
        _ => panic!("expected a refusal"),
    }
    c.refresh_token = Some("r".into());
    match ensure_token(&c) {
        TokenStep::Refresh { refresh_token, base_url } => {
            assert_eq!(refresh_token, "r");
            assert_eq!(base_url, DEFAULT_BASE_URL);
        }
        _ => panic!("expected a refresh"),
    }
    c.token = Some("t".into());
    match ensure_token(&c) {
        TokenStep::Ready(t) => assert_eq!(t, "t"),
        _ => panic!("expected the stored token"),
    }
}

#[test]
fn a_refused_token_is_dropped_and_refreshed() {
    let mut c = Config::default();
    c.token = Some("old".into());
    match refresh_on_401(&mut c) {
        TokenStep::Refused(m) => assert_eq!(m, "Session expired. Please log in again."),
        _ => panic!("expected the session to end"),
    }
    assert!(c.token.is_none());
    c.refresh_token = Some("r".into());
    assert!(matches!(refresh_on_401(&mut c), TokenStep::Refresh { .. }));
    assert_eq!(apply_refresh(&mut c, Err("Token refresh failed".into())), Err("Token refresh failed".to_string()));
    assert!(c.token.is_none());
    assert_eq!(apply_refresh(&mut c, Ok(("new".into(), user("a@b")))), Ok("new".to_string()));
    assert_eq!(c.token.as_deref(), Some("new"));
    assert_eq!(c.user.as_ref().unwrap().email, "a@b");
    assert_eq!(c.refresh_token.as_deref(), Some("r"));
}

#[test]
fn replies_and_errors_are_classified() {
    assert_eq!(reply_step(200, true), ReplyStep::Accept);
    assert_eq!(reply_step(204, false), ReplyStep::Accept);
    assert_eq!(reply_step(401, true), ReplyStep::Reauthorize);
    assert_eq!(reply_step(401, false), ReplyStep::Fail);
    assert_eq!(reply_step(500, true), ReplyStep::Fail);
    assert_eq!(reply_step(302, true), ReplyStep::Fail);
    assert!(is_unauthorized("Unauthorized"));
    assert!(is_unauthorized("HTTP 401 from server"));
    assert!(!is_unauthorized("Upload failed"));
    assert_eq!(failure_message(Some("quota".into()), "Upload failed"), "quota");
    assert_eq!(failure_message(None, "Upload failed"), "Upload failed");
}

#[test]
fn unlimited_plans_use_the_sentinel() {
    let mut s = StorageInfo {
        used: 5,
        left: 0,
        limit: -1,
        percentage_used_bits: 0f64.to_bits(),
        used_formatted: None,
        left_formatted: None,
        limit_formatted: None,
    };
    assert!(s.is_unlimited());
    s.limit = 100;
    assert!(!s.is_unlimited());
}

#[test]
fn paths_split_and_join() {
    assert_eq!(parent_of("/home/me").as_deref(), Some("/home"));
    assert_eq!(parent_of("/home/me/").as_deref(), Some("/home"));
    assert_eq!(parent_of("/home//me").as_deref(), Some("/home"));
    assert_eq!(parent_of("/home").as_deref(), Some("/"));
    assert_eq!(parent_of("/"), None);
    assert_eq!(parent_of(""), None);
    assert_eq!(parent_of("rel").as_deref(), Some(""));
    assert_eq!(parent_of("a/b").as_deref(), Some("a"));
    assert_eq!(join_path("/home", "me"), "/home/me");
    assert_eq!(join_path("/", "me"), "/me");
    assert_eq!(join_path("", "me"), "me");
    assert_eq!(join_path("/home", "/etc"), "/etc");
    assert_eq!(trim_trailing_slashes("a///"), "a");
    assert_eq!(trim_trailing_slashes("///"), "");
}

#[test]
fn parent_agrees_with_std_on_working_directories() {
    for p in ["/a/b/c", "/a", "/", "/usr/local/bin", "/x/y/", "//a", "rel", "a/b", ""] {
        let ours = parent_of(p);
        let theirs = std::path::Path::new(p).parent().map(|q| q.to_str().unwrap().to_string());
        assert_eq!(ours, theirs, "{p}");
    }
    for (d, n) in [("/a", "b"), ("/", "b"), ("/a/", "b"), ("", "b"), ("/a", "/b")] {
        let theirs = std::path::Path::new(d).join(n);
        assert_eq!(join_path(d, n), theirs.to_str().unwrap(), "{d} {n}");
    }
}
