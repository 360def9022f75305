use linkcheck::ledger::{start_crawl, Ledger, WorkerCommand};
use linkcheck::links::get_links;
use linkcheck::state::{classify, resolve_target, should_expand, UrlState};

// One simulated page: its absolute address, the status its server answers
// with (None stands for a server that never responds), and the hrefs of its
// anchors.
type Site<'a> = [(&'a str, Option<u16>, &'a [&'a str])];

fn render(s: &UrlState) -> String {
    match s {
        UrlState::Accessible(u) => format!("ok {}", u),
        UrlState::BadStatus(u, c) => format!("bad {} {}", u, c),
        UrlState::ConnectionFailed(u) => format!("conn {}", u),
        UrlState::TimedOut(u) => format!("timeout {}", u),
        UrlState::Malformed(t) => format!("malformed {}", t),
    }
}

// Drives one whole crawl sequentially against a simulated static site,
// standing in for the worker pool: claim, check, expand, commit, report.
fn run_crawl(seed: &str, site: &Site) -> Result<(Vec<UrlState>, Ledger), UrlState> {
    let mut ledger = match start_crawl(seed, 20) {
        Ok(l) => l,
        Err(s) => return Err(s),
    };
    let domain = ledger.domain_name().clone();
    let mut outcomes: Vec<UrlState> = Vec::new();
    loop {
        match ledger.worker_claim() {
            WorkerCommand::Exit => break,
            WorkerCommand::Retry => continue,
            WorkerCommand::Check(addr) => {
                let state = match resolve_target(&domain, &addr) {
                    Err(s) => s,
                    Ok(parts) => {
                        let served = site.iter().find(|e| e.0 == parts.text).map(|e| e.1);
                        match served {
                            Some(status) => classify(parts.text, status),
                            None => UrlState::TimedOut(parts.text),
                        }
                    }
                };
                if should_expand(&state, &domain) {
                    if let UrlState::Accessible(url) = &state {
                        let hrefs: Vec<String> = site
                            .iter()
                            .find(|e| e.0 == url.as_str())
                            .map(|e| e.2.iter().map(|h| h.to_string()).collect())
                            .unwrap_or_default();
                        let records = get_links(&hrefs, &domain, url);
                        ledger.record_links(records);
                    }
                }
                outcomes.push(state);
                assert!(ledger.active_workers() > 0);
                ledger.exit_active();
            }
        }
    }
    assert!(ledger.is_done());
    Ok((outcomes, ledger))
}

#[test]
fn seed_page_with_two_links() {
    let site: &Site = &[
        ("https://example.com/", Some(200), &["/about", "/missing"]),
        ("https://example.com/about", Some(200), &[]),
        ("https://example.com/missing", Some(404), &[]),
    ];
    let (outcomes, ledger) = run_crawl("https://example.com/", site).unwrap();
    assert_eq!(outcomes.len(), 3);
    let succeeded = outcomes
        .iter()
        .filter(|s| matches!(s, UrlState::Accessible(_)))
        .count();
    assert_eq!(succeeded, 2);
    assert_eq!(outcomes.len() - succeeded, 1);
    let mut rendered: Vec<String> = outcomes.iter().map(render).collect();
    rendered.sort();
    assert_eq!(
        rendered,
        vec![
            "bad https://example.com/missing 404".to_string(),
            "ok https://example.com/".to_string(),
            "ok https://example.com/about".to_string(),
        ]
    );
    let bad = outcomes
        .iter()
        .find(|s| matches!(s, UrlState::BadStatus(_, _)))
        .unwrap();
    let link = ledger.attach_link(bad).unwrap();
    assert_eq!(link.origin, "https://example.com/");
    assert_eq!(link.href, "/missing");
    assert_eq!(link.resolved.as_deref(), Some("https://example.com/missing"));
}

#[test]
fn unresponsive_seed_times_out() {
    let site: &Site = &[];
    let (outcomes, ledger) = run_crawl("https://example.com/", site).unwrap();
    assert_eq!(outcomes.len(), 1);
    assert!(matches!(&outcomes[0], UrlState::TimedOut(u) if u == "https://example.com/"));
    assert!(ledger.is_done());
}

#[test]
fn done_is_false_while_a_claim_is_uncommitted() {
    let mut ledger = start_crawl("https://example.com/", 20).unwrap();
    assert!(!ledger.is_done());
    let addr = match ledger.worker_claim() {
        WorkerCommand::Check(a) => a,
        _ => panic!("the seed should be handed out"),
    };
    assert_eq!(addr, "https://example.com/");
    // Nothing is pending, but the claim is not yet committed.
    assert!(!ledger.is_done());
    assert!(ledger.active_workers() > 0);
    ledger.exit_active();
    assert!(ledger.is_done());
}

#[test]
fn malformed_seed_reports_once_and_finishes() {
    let err = match run_crawl("not a url", &[]) {
        Err(s) => s,
        Ok(_) => panic!("an unparsable seed must be rejected"),
    };
    assert!(matches!(&err, UrlState::Malformed(t) if t == "not a url"));
}

#[test]
fn seed_without_domain_host_is_rejected() {
    let err = match run_crawl("mailto:someone@example.com", &[]) {
        Err(s) => s,
        Ok(_) => panic!("a seed without a domain host must be rejected"),
    };
    assert!(matches!(&err, UrlState::Malformed(t) if t == "mailto:someone@example.com"));
}

#[test]
fn seed_text_is_normalized_before_queueing() {
    // The seed is enqueued as the parsed address's own serialization, not
    // as the raw input text.
    let mut ledger = start_crawl("https://example.com", 20).unwrap();
    let addr = match ledger.worker_claim() {
        WorkerCommand::Check(a) => a,
        _ => panic!("the seed should be handed out"),
    };
    assert_eq!(addr, "https://example.com/");
    ledger.exit_active();
}

#[test]
fn shared_target_keeps_last_origin_and_is_checked_once() {
    let site: &Site = &[
        ("https://example.com/", Some(200), &["/a", "/x"]),
        ("https://example.com/a", Some(200), &["/x"]),
        ("https://example.com/x", Some(404), &[]),
    ];
    let (outcomes, ledger) = run_crawl("https://example.com/", site).unwrap();
    let x_outcomes = outcomes
        .iter()
        .filter(|s| matches!(s, UrlState::BadStatus(u, _) if u == "https://example.com/x"))
        .count();
    assert_eq!(x_outcomes, 1);
    assert_eq!(outcomes.len(), 3);
    let bad = outcomes
        .iter()
        .find(|s| matches!(s, UrlState::BadStatus(_, _)))
        .unwrap();
    let link = ledger.attach_link(bad).unwrap();
    // Both pages linked /x; the record committed last wins.
    assert_eq!(link.origin, "https://example.com/a");
    assert_eq!(link.href, "/x");
    assert_eq!(link.resolved.as_deref(), Some("https://example.com/x"));
}

#[test]
fn off_domain_links_are_recorded_but_never_claimed() {
    let site: &Site = &[
        ("https://example.com/", Some(200), &["https://other.com/page"]),
    ];
    let (outcomes, ledger) = run_crawl("https://example.com/", site).unwrap();
    // Only the seed is ever checked; the off-domain page is a leaf.
    assert_eq!(outcomes.len(), 1);
    assert!(matches!(&outcomes[0], UrlState::Accessible(u) if u == "https://example.com/"));
    // Its record is still in the index.
    let link = ledger.lookup_link("https://other.com/page").unwrap();
    assert_eq!(link.origin, "https://example.com/");
    assert_eq!(link.href, "https://other.com/page");
    assert_eq!(link.resolved.as_deref(), Some("https://other.com/page"));
}

#[test]
fn an_address_is_granted_to_one_claim_only() {
    let mut ledger = start_crawl("https://example.com/", 20).unwrap();
    let addr = "https://example.com/page".to_string();
    assert!(ledger.try_claim(&addr));
    assert!(!ledger.try_claim(&addr));
    assert!(!ledger.try_claim(&addr));
}

#[test]
fn same_site_crawled_twice_gives_same_classifications() {
    let site: &Site = &[
        ("https://example.com/", Some(200), &["/a", "/b", "/c"]),
        ("https://example.com/a", Some(200), &["/b"]),
        ("https://example.com/b", Some(503), &[]),
        ("https://example.com/c", None, &[]),
    ];
    let (first, _) = run_crawl("https://example.com/", site).unwrap();
    let (second, _) = run_crawl("https://example.com/", site).unwrap();
    let mut first_rendered: Vec<String> = first.iter().map(render).collect();
    let mut second_rendered: Vec<String> = second.iter().map(render).collect();
    first_rendered.sort();
    second_rendered.sort();
    assert_eq!(first_rendered, second_rendered);
}
