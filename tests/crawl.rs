use webcrawler::command::Command;
use webcrawler::crawler::{CommandOutcome, Crawler, JobStep};
use webcrawler::error::CrawlerError;
use webcrawler::parser::{find_anchors, is_whitespace, AnchorHrefIterator};
use webcrawler::url_worker::{parser_worker, parser_worker_handle_link, UrlWorker};
use webcrawler::web_url::{
    have_same_base, parse, strip_url_to_domain, strip_url_to_domain_and_path, UrlParseError, WebUrl,
};

fn url(s: &str) -> WebUrl {
    match parse(s) {
        Ok(u) => u,
        Err(e) => panic!("{} does not parse: {:?}", s, e),
    }
}

fn started(c: &mut Crawler, s: &str, now: i64) -> JobStep {
    match c.handle_command_at(Command::Start(s.to_string()), now) {
        Ok(CommandOutcome::Started(step)) => step,
        _ => panic!("start of {} failed", s),
    }
}

fn fetch_text(step: &JobStep) -> Option<String> {
    match step {
        JobStep::Fetch(u) => Some(u.as_text()),
        _ => None,
    }
}

fn listed(c: &mut Crawler) -> Vec<String> {
    match c.handle_command_at(Command::List, 0) {
        Ok(CommandOutcome::Listed(lines)) => lines,
        _ => panic!("list failed"),
    }
}

#[test]
fn parse_splits_components() {
    let u = url("https://user@example.com:8443/a/b/?x=1#top");
    assert_eq!(u.scheme, "https");
    assert_eq!(u.host.as_deref(), Some("example.com"));
    assert_eq!(u.origin, "https://user@example.com:8443");
    assert_eq!(u.path, "/a/b/");
    assert_eq!(u.query.as_deref(), Some("x=1"));
    assert_eq!(u.fragment.as_deref(), Some("top"));
    assert_eq!(u.as_text(), "https://user@example.com:8443/a/b/?x=1#top");
}

#[test]
fn parse_rejects_relative() {
    assert!(matches!(parse("not a url"), Err(UrlParseError::RelativeUrlWithoutBase)));
}

#[test]
fn normal_forms() {
    let u = url("http://site.com/a/?q=1#f");
    assert_eq!(strip_url_to_domain_and_path(&u).as_text(), "http://site.com/a");
    assert_eq!(strip_url_to_domain(&u).as_text(), "http://site.com");
    let root = url("http://site.com/");
    assert_eq!(strip_url_to_domain_and_path(&root).as_text(), "http://site.com");
}

#[test]
fn normal_forms_are_idempotent() {
    for s in ["http://site.com/a/b/?q=1", "http://site.com", "https://x.org/p#f", "http://d/a/", "http://d/a//"] {
        let u = url(s);
        let once = strip_url_to_domain_and_path(&u);
        let twice = strip_url_to_domain_and_path(&once);
        assert_eq!(once.as_text(), twice.as_text());
        let d1 = strip_url_to_domain(&u);
        let d2 = strip_url_to_domain(&d1);
        assert_eq!(d1.as_text(), d2.as_text());
    }
}

#[test]
fn relative_link_resolves_against_page() {
    let page = url("http://site.com/a/b");
    match parser_worker_handle_link(&page, "../x") {
        Ok(u) => assert_eq!(u.as_text(), "http://site.com/x"),
        Err(_) => panic!("relative link not resolved"),
    }
}

#[test]
fn cross_domain_link_is_dropped() {
    let page = url("http://site.com/p");
    match parser_worker_handle_link(&page, "http://other.com/q") {
        Err(CrawlerError::LinkUrlDoesNotMatchBaseUrl(a, b)) => {
            assert_eq!(a, "http://site.com/p");
            assert_eq!(b, "http://other.com/q");
        }
        _ => panic!("cross-domain link accepted"),
    }
}

#[test]
fn cross_domain_link_creates_no_job() {
    let mut c = Crawler::new();
    assert!(fetch_text(&started(&mut c, "http://site.com/p", 0)).is_some());
    let page = url("http://site.com/p");
    assert!(parser_worker_handle_link(&page, "http://other.com/q").is_err());
    let step = c.start_job(Some(&page), &url("http://other.com/q"), 0);
    assert!(matches!(step, Ok(JobStep::DomainStopped)));
    let lines = listed(&mut c);
    assert!(lines.iter().all(|l| !l.contains("other.com")));
}

#[test]
fn unparsable_link_is_reported() {
    let page = url("http://site.com/p");
    assert!(matches!(
        parser_worker_handle_link(&page, "http://[::1"),
        Err(CrawlerError::CannotParseLinkUrl(UrlParseError::InvalidIpv6Address))
    ));
}

#[test]
fn same_base_compares_scheme_and_host() {
    assert!(have_same_base(&url("http://a.com/x"), &url("http://a.com/y?z")));
    assert!(!have_same_base(&url("http://a.com/x"), &url("https://a.com/x")));
    assert!(!have_same_base(&url("http://a.com/x"), &url("http://b.com/x")));
}

#[test]
fn staleness_window() {
    let mut w = UrlWorker::new(&url("http://site.com/a"));
    assert!(w.start(0));
    assert!(!w.start(10));
    w.finish(Some(1_000));
    assert!(!w.start(60_999));
    assert!(w.start(61_000));
    w.finish(None);
    assert!(w.start(61_001));
}

#[test]
fn job_fetches_once_within_window() {
    let mut c = Crawler::new();
    let a = url("http://site.com/a");
    assert_eq!(fetch_text(&started(&mut c, "http://site.com/a", 0)).as_deref(), Some("http://site.com/a"));
    c.finish_job(&a, Some(0));
    assert!(matches!(started(&mut c, "http://site.com/a", 59_999), JobStep::Skipped));
    assert!(fetch_text(&started(&mut c, "http://site.com/a", 60_000)).is_some());
}

#[test]
fn failed_fetch_is_retried() {
    let mut c = Crawler::new();
    let a = url("http://site.com/a");
    assert!(fetch_text(&started(&mut c, "http://site.com/a", 0)).is_some());
    c.finish_job(&a, None);
    assert!(fetch_text(&started(&mut c, "http://site.com/a", 1)).is_some());
}

#[test]
fn stopped_domain_blocks_discovery() {
    let mut c = Crawler::new();
    assert!(fetch_text(&started(&mut c, "http://d/a", 0)).is_some());
    assert!(matches!(
        c.handle_command_at(Command::Stop("http://d".to_string()), 0),
        Ok(CommandOutcome::Stopped(true))
    ));
    let b = url("http://d/b");
    let a = url("http://d/a");
    assert!(matches!(c.start_job(Some(&a), &b, 0), Ok(JobStep::DomainStopped)));
    assert!(fetch_text(&started(&mut c, "http://d", 0)).is_some());
    let root = strip_url_to_domain(&a);
    assert_eq!(fetch_text(&c.start_job(Some(&root), &b, 0).ok().unwrap()).as_deref(), Some("http://d/b"));
}

#[test]
fn stop_of_unknown_site() {
    let mut c = Crawler::new();
    assert!(matches!(
        c.handle_command_at(Command::Stop("http://nowhere.com".to_string()), 0),
        Ok(CommandOutcome::Stopped(false))
    ));
}

#[test]
fn invalid_command_url() {
    let mut c = Crawler::new();
    assert!(matches!(
        c.handle_command_at(Command::Start("::nope".to_string()), 0),
        Err(CrawlerError::InvalidUrl(_))
    ));
    assert!(matches!(
        c.handle_command(Command::Stop("also not a url".to_string())),
        Err(CrawlerError::InvalidUrl(UrlParseError::RelativeUrlWithoutBase))
    ));
}

#[test]
fn unknown_parent_is_an_error() {
    let mut c = Crawler::new();
    assert!(fetch_text(&started(&mut c, "http://d", 0)).is_some());
    let stranger = url("http://d/never");
    match c.start_job(Some(&stranger), &url("http://d/b"), 0) {
        Err(CrawlerError::ParentUrlWorkerNotFound(p)) => assert_eq!(p, "http://d/never"),
        _ => panic!("missing parent accepted"),
    }
}

#[test]
fn tree_rendering() {
    let mut c = Crawler::new();
    assert!(fetch_text(&started(&mut c, "http://site.com", 0)).is_some());
    let root = url("http://site.com");
    let root = strip_url_to_domain(&root);
    let a = url("http://site.com/a");
    let b = url("http://site.com/b");
    let cc = url("http://site.com/b/c");
    assert!(c.start_job(Some(&root), &a, 0).is_ok());
    assert!(c.start_job(Some(&root), &b, 0).is_ok());
    assert!(c.start_job(Some(&b), &cc, 0).is_ok());
    assert_eq!(listed(&mut c), vec!["http://site.com", " /b", "  /b/c", " /a", ""]);
}

#[test]
fn empty_tree_renders_one_empty_line() {
    let mut c = Crawler::new();
    assert_eq!(listed(&mut c), vec![""]);
}

#[test]
fn childless_sites_share_a_line() {
    let mut c = Crawler::new();
    assert!(fetch_text(&started(&mut c, "http://one.com", 0)).is_some());
    assert!(fetch_text(&started(&mut c, "http://two.com/", 0)).is_some());
    assert_eq!(listed(&mut c), vec!["http://one.com http://two.com"]);
}

#[test]
fn partitions_cover_all_anchors() {
    let html = r#"<a href="1">x</a><a>no href</a><a href='3'>y</a><a href="4"></a><a href="5"></a>"#;
    let all = find_anchors(html, 0, 1);
    assert_eq!(all, vec!["1", "3", "4", "5"]);
    for n in 1..=6usize {
        let mut union: Vec<String> = Vec::new();
        for i in 0..n {
            union.extend(find_anchors(html, i, n));
        }
        union.sort();
        assert_eq!(union, all);
    }
    assert_eq!(find_anchors(html, 0, 2), vec!["1", "3", "5"]);
    assert_eq!(find_anchors(html, 1, 2), vec!["4"]);
}

#[test]
fn unclosed_anchor_yields_nothing_for_any_partition() {
    let html = r#"<a href="x">never closed"#;
    for n in 1..=4usize {
        for i in 0..n {
            assert!(find_anchors(html, i, n).is_empty());
        }
    }
}

#[test]
fn last_href_wins_and_closing_variants() {
    assert_eq!(find_anchors(r#"<a href="1" href="2">t</a>"#, 0, 1), vec!["2"]);
    assert_eq!(find_anchors(r#"<a href="1">t< /a >"#, 0, 1), vec!["1"]);
    assert_eq!(find_anchors(r#"<b href="1">t</b>"#, 0, 1), Vec::<String>::new());
}

#[test]
fn iterator_is_lazy_and_ends() {
    let mut it = AnchorHrefIterator::new(r#"<a href="p">1</a><a href="q">2</a>"#, 0, 1);
    assert_eq!(it.next().as_deref(), Some("p"));
    assert_eq!(it.next().as_deref(), Some("q"));
    assert_eq!(it.next(), None);
    assert_eq!(it.next(), None);
}

#[test]
fn whitespace_classification() {
    for c in [' ', '\t', '\n', '\u{a0}', '\u{3000}'] {
        assert!(is_whitespace(c));
        assert_eq!(is_whitespace(c), c.is_whitespace());
    }
    for c in ['a', '<', '\u{200b}'] {
        assert!(!is_whitespace(c));
        assert_eq!(is_whitespace(c), c.is_whitespace());
    }
}

#[test]
fn parser_worker_resolves_its_partition() {
    let page = url("http://site.com/dir/page");
    let html = r#"<a href="/one">1</a><a href="two">2</a><a href="http://x.org/">3</a><a href="../four">4</a><a href="five">5</a>"#;
    let r0 = parser_worker(0, &page, html);
    assert_eq!(r0.len(), 2);
    assert_eq!(r0[0].as_ref().ok().unwrap().as_text(), "http://site.com/one");
    assert_eq!(r0[1].as_ref().ok().unwrap().as_text(), "http://site.com/dir/five");
    let r1 = parser_worker(1, &page, html);
    assert_eq!(r1.len(), 1);
    assert_eq!(r1[0].as_ref().ok().unwrap().as_text(), "http://site.com/dir/two");
    let r2 = parser_worker(2, &page, html);
    assert!(matches!(r2[0], Err(CrawlerError::LinkUrlDoesNotMatchBaseUrl(_, _))));
    let r3 = parser_worker(3, &page, html);
    assert_eq!(r3[0].as_ref().ok().unwrap().as_text(), "http://site.com/four");
}

#[test]
fn display_policy() {
    assert!(!CrawlerError::LinkUrlDoesNotMatchBaseUrl("a".to_string(), "b".to_string()).should_display_error());
    assert!(!CrawlerError::BaseUrlHasStoppedCrawling("a".to_string(), "b".to_string()).should_display_error());
    assert!(!CrawlerError::BaseUrlHasStoppedCrawling("a".to_string(), "b".to_string()).should_display_backtrace());
    assert!(CrawlerError::FailedToResolveRelativeUrl("x".to_string()).should_display_error());
    assert!(CrawlerError::ReceivedNoCommandFromChannel.should_display_backtrace());
    assert!(CrawlerError::TreeCorrupt(String::new()).should_display_error());
}

#[test]
fn trailing_slashes_all_removed() {
    let u = url("http://d/a//");
    assert_eq!(strip_url_to_domain_and_path(&u).as_text(), "http://d/a");
}

#[test]
fn start_registers_existing_job_under_root() {
    let mut c = Crawler::new();
    assert!(fetch_text(&started(&mut c, "http://d/x", 0)).is_some());
    let x = url("http://d/x");
    let k = url("http://d/k");
    assert!(fetch_text(&c.start_job(Some(&x), &k, 0).ok().unwrap()).is_some());
    assert!(matches!(started(&mut c, "http://d/k", 1), JobStep::Skipped));
    assert_eq!(listed(&mut c), vec!["http://d", " /x", "  /k", " /k", ""]);
}
