use observatory::runtime::{expand_root, projector_retry_delay_ms};

#[test]
fn projector_sqlite_retry_backoff_reuses_ingest_policy_and_caps() {
    assert_eq!(projector_retry_delay_ms(1), 25);
    assert_eq!(projector_retry_delay_ms(2), 100);
    assert_eq!(projector_retry_delay_ms(3), 250);
    assert_eq!(projector_retry_delay_ms(4), 250);
    assert_eq!(projector_retry_delay_ms(100), 250);
}

#[test]
fn first_attempt_and_zero_use_the_shortest_delay() {
    assert_eq!(projector_retry_delay_ms(0), 25);
}

#[test]
fn git_roots_expand_a_leading_home_tilde_only() {
    assert_eq!(expand_root("~/code", Some(b"/home/me".to_vec())), b"/home/me/code".to_vec());
    assert_eq!(expand_root("~/code", None), b"/nonexistent/code".to_vec());
    assert_eq!(expand_root("/srv/git", Some(b"/home/me".to_vec())), b"/srv/git".to_vec());
    assert_eq!(expand_root("~user/code", Some(b"/home/me".to_vec())), b"~user/code".to_vec());
}
