use nx53::firewall::{get_backend, select_banned_handles, FirewallBackend, FlushTarget, RuleInfo, StubBackend};

fn rule(table: &str, chain: &str, is_drop: bool, comment: Option<&str>, handle: Option<u64>) -> RuleInfo {
    RuleInfo {
        table: table.to_string(),
        chain: chain.to_string(),
        is_drop_stmt: is_drop,
        comment: comment.map(|c| c.to_string()),
        handle,
    }
}

#[test]
fn flush_banned_selects_only_drop_rules() {
    let rules = vec![
        rule("nx53", "input", true, None, Some(1)),
        rule("nx53", "input", false, Some("nx53: DROP 1.2.3.4"), Some(2)),
        rule("nx53", "input", false, Some("nx53: accept 5.5.5.5"), Some(3)),
        rule("filter", "input", true, None, Some(4)),
        rule("nx53", "output", true, None, Some(5)),
        rule("nx53", "input", true, None, None),
    ];
    let hs = select_banned_handles(&rules, "nx53", "input");
    assert_eq!(hs, vec![1, 2]);
}

#[test]
fn flush_banned_on_empty_ruleset() {
    let rules: Vec<RuleInfo> = Vec::new();
    assert_eq!(select_banned_handles(&rules, "nx53", "input"), Vec::<u64>::new());
}

#[test]
fn comment_search_ignores_case() {
    let rules = vec![
        rule("nx53", "input", false, Some("will dRoP this"), Some(7)),
        rule("nx53", "input", false, Some("dro p"), Some(8)),
    ];
    assert_eq!(select_banned_handles(&rules, "nx53", "input"), vec![7]);
}

#[test]
fn stub_backend_accepts_everything() {
    let b = StubBackend::new().unwrap();
    assert!(b.block_ip("1.2.3.4").is_ok());
    assert!(b.allow_ip("1.2.3.4").is_ok());
    assert!(b.flush(FlushTarget::All).is_ok());
    assert!(b.flush(FlushTarget::Banned).is_ok());
    assert!(get_backend().is_ok());
}
