//! One crawl job: the staleness gate in front of each fetch, and the
//! handling of the links found on a fetched page.
use vstd::prelude::*;

use crate::error::{CrawlerError, ErrorView};
use crate::parser::{anchor_hrefs, find_anchors};
use crate::web_url::{
    have_same_base, join_url, joined_url, parse_url, parsed_url, same_base, url_text, UrlParseError,
    UrlView, WebUrl,
};

verus! {

/// How long, in milliseconds, a fetched page stays fresh.
pub const URL_MAX_STALE_MILLIS: i64 = 60000;

/// How many scanners share the anchors of one page.
pub const PARSER_WORKER_COUNT: usize = 4;

/// A job's state: when its page was last fetched, and whether a fetch is
/// under way.
pub struct JobView {
    pub last_fetch: Option<i64>,
    pub fetching: bool,
}

/// A page fetched at `last` is fresh at `now`: less than the stale window
/// has passed.
pub open spec fn is_fresh(last: Option<i64>, now: i64) -> bool {
    match last {
        Some(t) => now - t < URL_MAX_STALE_MILLIS,
        None => false,
    }
}

/// Whether a job in state `j` fetches when started at `now`.
pub open spec fn should_fetch(j: JobView, now: i64) -> bool {
    !j.fetching && !is_fresh(j.last_fetch, now)
}

/// The state after a start at `now`.
pub open spec fn after_start(j: JobView, now: i64) -> JobView {
    if should_fetch(j, now) {
        JobView { fetching: true, ..j }
    } else {
        j
    }
}

/// The state after the fetch ended: at `fetched_at` if it succeeded.
pub open spec fn after_fetch(j: JobView, fetched_at: Option<i64>) -> JobView {
    JobView {
        last_fetch: match fetched_at {
            Some(t) => Some(t),
            None => j.last_fetch,
        },
        fetching: false,
    }
}

pub struct UrlWorker {
    url: WebUrl,
    last_access_timestamp: Option<i64>,
    fetching: bool,
}

impl View for UrlWorker {
    type V = JobView;

    closed spec fn view(&self) -> JobView {
        JobView { last_fetch: self.last_access_timestamp, fetching: self.fetching }
    }
}

impl UrlWorker {
    pub closed spec fn url_view(&self) -> UrlView {
        self.url@
    }

    pub fn new(url: &WebUrl) -> (r: Self)
        ensures
            r.url_view() == url@,
            r@ == (JobView { last_fetch: None, fetching: false }),
    {
        UrlWorker { url: url.copy(), last_access_timestamp: None, fetching: false }
    }

    pub fn copy(&self) -> (r: Self)
        ensures
            r.url_view() == self.url_view(),
            r@ == self@,
    {
        UrlWorker {
            url: self.url.copy(),
            last_access_timestamp: self.last_access_timestamp,
            fetching: self.fetching,
        }
    }

    pub fn url(&self) -> (r: &WebUrl)
        ensures
            r@ == self.url_view(),
    {
        &self.url
    }

    /// Decides whether to fetch now: not while a fetch is under way, nor
    /// within the stale window of the last successful one. A `true` marks
    /// the fetch as under way.
    pub fn start(&mut self, now: i64) -> (r: bool)
        ensures
            r == should_fetch(old(self)@, now),
            final(self)@ == after_start(old(self)@, now),
            final(self).url_view() == old(self).url_view(),
    {
        if self.fetching {
            return false;
        }
        if let Some(timestamp) = self.last_access_timestamp {
            let elapsed: i128 = now as i128 - timestamp as i128;
            if elapsed < URL_MAX_STALE_MILLIS as i128 {
                return false;
            }
        }
        self.fetching = true;
        true
    }

    /// Ends a fetch: `Some(t)` when it succeeded at `t`, `None` when it
    /// failed, which leaves the page due for the next start.
    pub fn finish(&mut self, fetched_at: Option<i64>)
        ensures
            final(self)@ == after_fetch(old(self)@, fetched_at),
            final(self).url_view() == old(self).url_view(),
    {
        if let Some(t) = fetched_at {
            self.last_access_timestamp = Some(t);
        }
        self.fetching = false;
    }
}

/// A job fetches at most once within the stale window: started, fetched
/// at `t`, and started again before `t` plus the window, it does not fetch;
/// started again at or after that, it does.
pub proof fn lemma_staleness_gate(j: JobView, now1: i64, t: i64, now2: i64)
    requires
        should_fetch(j, now1),
    ensures
        after_start(j, now1).fetching,
        !should_fetch(after_start(j, now1), now1),
        now2 - t < URL_MAX_STALE_MILLIS ==> !should_fetch(
            after_fetch(after_start(j, now1), Some(t)),
            now2,
        ),
        now2 - t >= URL_MAX_STALE_MILLIS ==> should_fetch(
            after_fetch(after_start(j, now1), Some(t)),
            now2,
        ),
        should_fetch(after_fetch(after_start(j, now1), None), now1),
{
}

/// Where a link found on a page leads.
pub enum LinkOutcome {
    /// A URL of the same site, to crawl.
    Follow(UrlView),
    /// A relative reference that cannot be joined to the page's URL.
    Unresolvable,
    /// A URL of another site.
    OtherSite(UrlView),
    /// Not a URL, for another reason than being relative.
    Unparsable(UrlParseError),
}

pub open spec fn site_check(page: UrlView, u: UrlView) -> LinkOutcome {
    if same_base(page, u) {
        LinkOutcome::Follow(u)
    } else {
        LinkOutcome::OtherSite(u)
    }
}

/// A link is parsed as an absolute URL, or, when it is relative, joined to
/// the page's URL; only URLs of the page's own site are followed.
pub open spec fn link_outcome(page: UrlView, link: Seq<char>) -> LinkOutcome {
    match parsed_url(link) {
        Ok(u) => site_check(page, u),
        Err(e) => if e.spec_is_relative() {
            match joined_url(url_text(page), link) {
                Ok(u) => site_check(page, u),
                Err(_) => LinkOutcome::Unresolvable,
            }
        } else {
            LinkOutcome::Unparsable(e)
        },
    }
}

pub open spec fn link_result_matches(
    page: UrlView,
    link: Seq<char>,
    r: Result<WebUrl, CrawlerError>,
) -> bool {
    match link_outcome(page, link) {
        LinkOutcome::Follow(u) => r is Ok && r->Ok_0@ == u,
        LinkOutcome::Unresolvable => r is Err && r->Err_0@ == ErrorView::FailedToResolveRelativeUrl(
            link,
        ),
        LinkOutcome::OtherSite(u) => r is Err && r->Err_0@ == ErrorView::LinkUrlDoesNotMatchBaseUrl(
            url_text(page),
            url_text(u),
        ),
        LinkOutcome::Unparsable(e) => r is Err && r->Err_0@ == ErrorView::CannotParseLinkUrl(e),
    }
}

fn check_same_site(previous_url: &WebUrl, link_url: WebUrl) -> (r: Result<WebUrl, CrawlerError>)
    ensures
        same_base(previous_url@, link_url@) ==> r is Ok && r->Ok_0@ == link_url@,
        !same_base(previous_url@, link_url@) ==> r is Err && r->Err_0@
            == ErrorView::LinkUrlDoesNotMatchBaseUrl(url_text(previous_url@), url_text(link_url@)),
{
    if !have_same_base(previous_url, &link_url) {
        return Err(
            CrawlerError::LinkUrlDoesNotMatchBaseUrl(previous_url.as_text(), link_url.as_text()),
        );
    }
    Ok(link_url)
}

/// Resolves one href found on the page at `previous_url`.
pub fn parser_worker_handle_link(previous_url: &WebUrl, link_url: &str) -> (r: Result<
    WebUrl,
    CrawlerError,
>)
    ensures
        link_result_matches(previous_url@, link_url@, r),
        r is Ok ==> same_base(previous_url@, r->Ok_0@),
{
    match parse_url(link_url) {
        Ok(u) => check_same_site(previous_url, u),
        Err(e) => {
            if e.is_relative() {
                let base = previous_url.as_text();
                match join_url(base.as_str(), link_url) {
                    Ok(u) => check_same_site(previous_url, u),
                    Err(_) => Err(
                        CrawlerError::FailedToResolveRelativeUrl(
                            crate::text::string_from_chars(&crate::text::chars_of(link_url)),
                        ),
                    ),
                }
            } else {
                Err(CrawlerError::CannotParseLinkUrl(e))
            }
        },
    }
}

/// The links of partition `worker_index` of `document`, each resolved
/// against `previous_url`, in document order.
pub fn parser_worker(worker_index: usize, previous_url: &WebUrl, document: &str) -> (r: Vec<
    Result<WebUrl, CrawlerError>,
>)
    ensures
        r@.len() == anchor_hrefs(document@, worker_index as int, PARSER_WORKER_COUNT as int).len(),
        forall|k: int|
            0 <= k < r@.len() ==> link_result_matches(
                previous_url@,
                anchor_hrefs(document@, worker_index as int, PARSER_WORKER_COUNT as int)[k],
                #[trigger] r@[k],
            ),
{
    let links = find_anchors(document, worker_index, PARSER_WORKER_COUNT);
    let ghost hrefs = anchor_hrefs(document@, worker_index as int, PARSER_WORKER_COUNT as int);
    let mut out: Vec<Result<WebUrl, CrawlerError>> = Vec::new();
    let mut i: usize = 0;
    while i < links.len()
        invariant
            links@.map_values(|s: String| s@) == hrefs,
            i <= links@.len(),
            out@.len() == i,
            forall|k: int|
                0 <= k < i ==> link_result_matches(previous_url@, hrefs[k], #[trigger] out@[k]),
        decreases links@.len() - i,
    {
        let r = parser_worker_handle_link(previous_url, links[i].as_str());
        proof {
            assert(hrefs[i as int] == links@[i as int]@);
        }
        out.push(r);
        i = i + 1;
    }
    out
}

} // verus!
