//! The crawl orchestrator: which sites are being crawled, the crawl jobs,
//! and the tree of which page led to which.
use vstd::prelude::*;

use crate::base_url::BaseUrl;
use crate::command::{Command, CommandView};
use crate::error::{CrawlerError, ErrorView};
use crate::text::{append_str, string_from_chars};
use crate::url_worker::{after_fetch, after_start, should_fetch, JobView, UrlWorker};
use crate::web_url::{
    domain_of, domain_path_of, parse_url, parsed_url, strip_url_to_domain,
    strip_url_to_domain_and_path, url_text, UrlView, WebUrl,
};

verus! {

/// The crawler's registries.
pub struct CrawlerView {
    /// Each known site, in the order first started, with its on/off flag.
    pub roots: Seq<UrlView>,
    pub domains: Map<UrlView, bool>,
    /// Each crawl job, by its domain+path URL.
    pub jobs: Map<UrlView, JobView>,
    /// Each registered URL with the URLs found on it or, for a site's root,
    /// started directly under it.
    pub tree: Map<UrlView, Seq<UrlView>>,
}

/// What a start of a crawl job leads to.
pub enum JobStep {
    /// Fetch this URL, then report back with `finish_job`.
    Fetch(WebUrl),
    /// The page is fresh, or a fetch of it is under way.
    Skipped,
    /// The site is not being crawled.
    DomainStopped,
}

pub enum StepView {
    Fetch(UrlView),
    Skipped,
    DomainStopped,
}

impl View for JobStep {
    type V = StepView;

    open spec fn view(&self) -> StepView {
        match self {
            JobStep::Fetch(u) => StepView::Fetch(u@),
            JobStep::Skipped => StepView::Skipped,
            JobStep::DomainStopped => StepView::DomainStopped,
        }
    }
}

/// What a command led to.
pub enum CommandOutcome {
    Started(JobStep),
    /// Whether the site was known.
    Stopped(bool),
    /// The rendered tree, one line each.
    Listed(Vec<String>),
}

pub open spec fn is_crawling(m: CrawlerView, u: UrlView) -> bool {
    m.domains.contains_key(domain_of(u)) && m.domains[domain_of(u)]
}

/// Turns the site of `u` on, registering it first if it is new.
pub open spec fn activate(m: CrawlerView, u: UrlView) -> CrawlerView {
    let d = domain_of(u);
    CrawlerView {
        roots: if m.domains.contains_key(d) {
            m.roots
        } else {
            m.roots.push(d)
        },
        domains: m.domains.insert(d, true),
        tree: if m.tree.contains_key(d) {
            m.tree
        } else {
            m.tree.insert(d, Seq::empty())
        },
        ..m
    }
}

/// Turns the site of `u` off, if it is known.
pub open spec fn deactivate(m: CrawlerView, u: UrlView) -> CrawlerView {
    let d = domain_of(u);
    if m.domains.contains_key(d) {
        CrawlerView { domains: m.domains.insert(d, false), ..m }
    } else {
        m
    }
}

/// A set of children with `u` added.
pub open spec fn add_child(children: Seq<UrlView>, u: UrlView) -> Seq<UrlView> {
    if children.contains(u) {
        children
    } else {
        children.push(u)
    }
}

/// Registers `u` in the tree, and as a child of its parent: the given
/// page, or the site's root when there is none. Fails when that parent is
/// not registered.
pub open spec fn register_in_tree(
    tree: Map<UrlView, Seq<UrlView>>,
    parent: Option<UrlView>,
    u: UrlView,
) -> Result<Map<UrlView, Seq<UrlView>>, ErrorView> {
    let d = domain_of(u);
    let t0 = if tree.contains_key(u) {
        tree
    } else {
        tree.insert(u, Seq::empty())
    };
    match parent {
        Some(p) => if tree.contains_key(p) {
            Ok(t0.insert(p, add_child(t0[p], u)))
        } else {
            Err(ErrorView::ParentUrlWorkerNotFound(url_text(p)))
        },
        None => if u == d {
            Ok(t0)
        } else if tree.contains_key(d) {
            Ok(t0.insert(d, add_child(t0[d], u)))
        } else {
            Err(ErrorView::BaseUrlNotFound(url_text(u)))
        },
    }
}

/// Starts the job of `url` (normalised to its domain+path form), found on
/// `parent` or asked for directly: nothing while its site is off; else the
/// URL is registered under its parent, its job created if new, and started.
pub open spec fn start_job_spec(
    m: CrawlerView,
    parent: Option<UrlView>,
    url: UrlView,
    now: i64,
) -> (CrawlerView, Result<StepView, ErrorView>) {
    let u = domain_path_of(url);
    if !is_crawling(m, u) {
        (m, Ok(StepView::DomainStopped))
    } else {
        match register_in_tree(m.tree, parent, u) {
            Err(e) => (m, Err(e)),
            Ok(t) => {
                let jobs = if m.jobs.contains_key(u) {
                    m.jobs
                } else {
                    m.jobs.insert(u, JobView { last_fetch: None, fetching: false })
                };
                (
                    CrawlerView { tree: t, jobs: jobs.insert(u, after_start(jobs[u], now)), ..m },
                    Ok(
                        if should_fetch(jobs[u], now) {
                            StepView::Fetch(u)
                        } else {
                            StepView::Skipped
                        },
                    ),
                )
            },
        }
    }
}

/// An operator's start: the site is turned on, then the job started.
pub open spec fn start_command_spec(m: CrawlerView, url: UrlView, now: i64) -> (
    CrawlerView,
    Result<StepView, ErrorView>,
) {
    start_job_spec(activate(m, url), None, url, now)
}

/// The end of a fetch of the job `u`.
pub open spec fn finish_job_spec(m: CrawlerView, u: UrlView, fetched_at: Option<i64>) -> CrawlerView {
    if m.jobs.contains_key(u) {
        CrawlerView { jobs: m.jobs.insert(u, after_fetch(m.jobs[u], fetched_at)), ..m }
    } else {
        m
    }
}

pub open spec fn parent_view(parent: Option<&WebUrl>) -> Option<UrlView> {
    match parent {
        Some(p) => Some(p@),
        None => None,
    }
}

pub open spec fn step_result_view(r: Result<JobStep, CrawlerError>) -> Result<StepView, ErrorView> {
    match r {
        Ok(s) => Ok(s@),
        Err(e) => Err(e@),
    }
}

pub enum OutcomeView {
    Started(StepView),
    Stopped(bool),
    Listed(Seq<Seq<char>>),
}

pub open spec fn outcome_result_view(r: Result<CommandOutcome, CrawlerError>) -> Result<OutcomeView, ErrorView> {
    match r {
        Ok(CommandOutcome::Started(s)) => Ok(OutcomeView::Started(s@)),
        Ok(CommandOutcome::Stopped(b)) => Ok(OutcomeView::Stopped(b)),
        Ok(CommandOutcome::Listed(v)) => Ok(OutcomeView::Listed(lines_view(v@))),
        Err(e) => Err(e@),
    }
}

/// What a command does at time `now`: a start or stop whose URL does not
/// parse fails with `InvalidUrl` and changes nothing; a start turns the
/// site on and starts the job; a stop turns the site off; a list renders
/// the tree, or fails with `TreeCorrupt` when a node is not registered.
pub open spec fn handle_command_spec(m: CrawlerView, c: CommandView, now: i64) -> (
    CrawlerView,
    Result<OutcomeView, ErrorView>,
) {
    match c {
        CommandView::Start(s) => match parsed_url(s) {
            Err(e) => (m, Err(ErrorView::InvalidUrl(e))),
            Ok(u) => {
                let (m1, r) = start_command_spec(m, u, now);
                (
                    m1,
                    match r {
                        Ok(st) => Ok(OutcomeView::Started(st)),
                        Err(e) => Err(e),
                    },
                )
            },
        },
        CommandView::Stop(s) => match parsed_url(s) {
            Err(e) => (m, Err(ErrorView::InvalidUrl(e))),
            Ok(u) => (
                deactivate(m, u),
                Ok(OutcomeView::Stopped(m.domains.contains_key(domain_of(u)))),
            ),
        },
        CommandView::List => (
            m,
            match render_tree(m) {
                Some(lines) => Ok(OutcomeView::Listed(lines)),
                None => Err(ErrorView::TreeCorrupt(Seq::empty())),
            },
        ),
    }
}

/// Relies on `chrono::Utc::now` and `DateTime::timestamp_millis`: the time
/// now, in milliseconds since the Unix epoch.
#[verifier::external_body]
fn now_millis() -> i64 {
    chrono::Utc::now().timestamp_millis()
}

/// Every child in the tree is itself registered in it.
pub open spec fn tree_closed(tree: Map<UrlView, Seq<UrlView>>) -> bool {
    forall|k: UrlView, j: int|
        #[trigger] tree.contains_key(k) && 0 <= j < tree[k].len() ==> tree.contains_key(
            #[trigger] tree[k][j],
        )
}

pub open spec fn indent(depth: nat) -> Seq<char> {
    Seq::new(depth, |i: int| ' ')
}

/// A site is shown by its full URL, a page below it by its path.
pub open spec fn node_name(u: UrlView, depth: nat) -> Seq<char> {
    if depth == 0 {
        url_text(u)
    } else {
        u.path
    }
}

pub open spec fn join_names(names: Seq<Seq<char>>) -> Seq<char>
    decreases names.len(),
{
    if names.len() == 0 {
        Seq::empty()
    } else if names.len() == 1 {
        names[0]
    } else {
        join_names(names.drop_last()) + seq![' '] + names.last()
    }
}

/// The names of the nodes without children, in order.
pub open spec fn childless_names(tree: Map<UrlView, Seq<UrlView>>, nodes: Seq<UrlView>, depth: nat) -> Seq<
    Seq<char>,
>
    decreases nodes.len(),
{
    if nodes.len() == 0 {
        Seq::empty()
    } else {
        let rest = childless_names(tree, nodes.drop_last(), depth);
        if tree.contains_key(nodes.last()) && tree[nodes.last()].len() == 0 {
            rest.push(node_name(nodes.last(), depth))
        } else {
            rest
        }
    }
}

/// The lines of the nodes with children, each followed by its subtree one
/// level deeper; `None` when a node is not registered. Below `fuel` levels
/// a subtree is not shown.
pub open spec fn render_childed(
    tree: Map<UrlView, Seq<UrlView>>,
    nodes: Seq<UrlView>,
    depth: nat,
    fuel: nat,
) -> Option<Seq<Seq<char>>>
    decreases fuel, nodes.len(),
{
    if nodes.len() == 0 {
        Some(Seq::empty())
    } else {
        match render_childed(tree, nodes.drop_last(), depth, fuel) {
            None => None,
            Some(prev) => {
                let n = nodes.last();
                if !tree.contains_key(n) {
                    None
                } else if tree[n].len() == 0 {
                    Some(prev)
                } else {
                    let line = indent(depth) + node_name(n, depth);
                    if fuel == 0 {
                        Some(prev.push(line))
                    } else {
                        match render_level(tree, tree[n], depth + 1, (fuel - 1) as nat) {
                            None => None,
                            Some(sub) => Some(prev.push(line) + sub),
                        }
                    }
                }
            },
        }
    }
}

/// One level of the tree: the nodes with children first, then one line
/// with the nodes without children.
pub open spec fn render_level(
    tree: Map<UrlView, Seq<UrlView>>,
    nodes: Seq<UrlView>,
    depth: nat,
    fuel: nat,
) -> Option<Seq<Seq<char>>>
    decreases fuel, nodes.len() + 1,
{
    match render_childed(tree, nodes, depth, fuel) {
        None => None,
        Some(lines) => Some(lines.push(indent(depth) + join_names(childless_names(tree, nodes, depth)))),
    }
}

/// The whole tree, from the sites down.
pub open spec fn render_tree(m: CrawlerView) -> Option<Seq<Seq<char>>> {
    render_level(m.tree, m.roots, 0, m.tree.len())
}

pub open spec fn lines_view(v: Seq<String>) -> Seq<Seq<char>> {
    v.map_values(|s: String| s@)
}

proof fn lemma_render_none_extends(
    tree: Map<UrlView, Seq<UrlView>>,
    nodes: Seq<UrlView>,
    k: int,
    depth: nat,
    fuel: nat,
)
    requires
        0 <= k <= nodes.len(),
        render_childed(tree, nodes.subrange(0, k), depth, fuel) is None,
    ensures
        render_childed(tree, nodes, depth, fuel) is None,
        render_level(tree, nodes, depth, fuel) is None,
    decreases nodes.len(),
{
    if k == nodes.len() {
        assert(nodes.subrange(0, k) =~= nodes);
    } else {
        let d = nodes.drop_last();
        assert(d.subrange(0, k) =~= nodes.subrange(0, k));
        lemma_render_none_extends(tree, d, k, depth, fuel);
    }
}

/// A stopped site starts nothing: after a start of `a` and a stop of its
/// site, a link `b` of the same site leads to no fetch and changes nothing,
/// whatever page it was found on. Once the site is started again, the same
/// link found on the site's root page is fetched, provided it names a page
/// of its own that no job was registered for.
pub proof fn lemma_domain_gate(
    m: CrawlerView,
    a: UrlView,
    b: UrlView,
    parent: Option<UrlView>,
    now: i64,
)
    requires
        domain_of(b) == domain_of(a),
        domain_path_of(b) != domain_path_of(a),
        domain_path_of(b) != domain_of(a),
        !m.jobs.contains_key(domain_path_of(b)),
    ensures
        ({
            let m1 = start_command_spec(m, a, now).0;
            let m2 = deactivate(m1, domain_of(a));
            let stopped = start_job_spec(m2, parent, b, now);
            let m3 = start_command_spec(m2, domain_of(a), now).0;
            &&& stopped.1 == Ok::<StepView, ErrorView>(StepView::DomainStopped)
            &&& stopped.0 == m2
            &&& start_job_spec(m3, Some(domain_of(a)), b, now).1 == Ok::<StepView, ErrorView>(
                StepView::Fetch(domain_path_of(b)),
            )
        }),
{
    let d = domain_of(a);
    assert(domain_of(d) == d);
    assert(domain_path_of(d) == d);
    assert(domain_of(domain_path_of(b)) == d);
}

proof fn lemma_render_some(tree: Map<UrlView, Seq<UrlView>>, nodes: Seq<UrlView>, depth: nat, fuel: nat)
    requires
        tree_closed(tree),
        forall|j: int| 0 <= j < nodes.len() ==> tree.contains_key(#[trigger] nodes[j]),
    ensures
        render_childed(tree, nodes, depth, fuel) is Some,
        render_level(tree, nodes, depth, fuel) is Some,
    decreases fuel, nodes.len(),
{
    if nodes.len() > 0 {
        let d = nodes.drop_last();
        assert forall|j: int| 0 <= j < d.len() implies tree.contains_key(#[trigger] d[j]) by {
            assert(d[j] == nodes[j]);
        }
        lemma_render_some(tree, d, depth, fuel);
        let n = nodes.last();
        assert(tree.contains_key(n));
        if tree[n].len() > 0 && fuel > 0 {
            assert forall|j: int| 0 <= j < tree[n].len() implies tree.contains_key(#[trigger] tree[n][j]) by {
                assert(tree.contains_key(n));
            }
            lemma_render_some(tree, tree[n], depth + 1, (fuel - 1) as nat);
        }
    }
}

/// The tree of a crawler always renders: every node it reaches is
/// registered.
pub proof fn lemma_tree_renders(m: CrawlerView)
    requires
        tree_closed(m.tree),
        forall|i: int| 0 <= i < m.roots.len() ==> m.tree.contains_key(#[trigger] m.roots[i]),
    ensures
        render_tree(m) is Some,
{
    lemma_render_some(m.tree, m.roots, 0, m.tree.len());
}

pub struct Crawler {
    base_urls: Vec<(WebUrl, BaseUrl)>,
    url_workers: Vec<UrlWorker>,
    url_parents: Vec<(WebUrl, Vec<WebUrl>)>,
    model: Ghost<CrawlerView>,
}

pub open spec fn urls_view(v: Seq<WebUrl>) -> Seq<UrlView> {
    v.map_values(|u: WebUrl| u@)
}

impl View for Crawler {
    type V = CrawlerView;

    closed spec fn view(&self) -> CrawlerView {
        self.model@
    }
}

impl Crawler {
    pub closed spec fn wf(&self) -> bool {
        let m = self.model@;
        let b = self.base_urls@;
        let w = self.url_workers@;
        let t = self.url_parents@;
        &&& m.roots.len() == b.len()
        &&& forall|i: int| 0 <= i < b.len() ==> m.roots[i] == (#[trigger] b[i]).0@
        &&& forall|i: int|
            0 <= i < b.len() ==> m.domains.contains_key((#[trigger] b[i]).0@) && m.domains[b[i].0@]
                == b[i].1@
        &&& forall|k: UrlView| #[trigger] m.domains.contains_key(k) ==> m.roots.contains(k)
        &&& forall|i: int, j: int| 0 <= i < j < b.len() ==> (#[trigger] b[i]).0@ != (#[trigger] b[j]).0@
        &&& forall|i: int|
            0 <= i < w.len() ==> m.jobs.contains_key((#[trigger] w[i]).url_view()) && m.jobs[w[i].url_view()]
                == w[i]@
        &&& forall|k: UrlView|
            #[trigger] m.jobs.contains_key(k) ==> exists|i: int| 0 <= i < w.len() && (#[trigger] w[i]).url_view() == k
        &&& forall|i: int, j: int|
            0 <= i < j < w.len() ==> (#[trigger] w[i]).url_view() != (#[trigger] w[j]).url_view()
        &&& forall|i: int|
            0 <= i < t.len() ==> m.tree.contains_key((#[trigger] t[i]).0@) && m.tree[t[i].0@]
                == urls_view(t[i].1@)
        &&& forall|k: UrlView|
            #[trigger] m.tree.contains_key(k) ==> exists|i: int| 0 <= i < t.len() && (#[trigger] t[i]).0@ == k
        &&& forall|i: int, j: int| 0 <= i < j < t.len() ==> (#[trigger] t[i]).0@ != (#[trigger] t[j]).0@
        &&& m.tree.dom().finite()
        &&& m.tree.dom().len() == t.len()
        &&& tree_closed(m.tree)
        &&& forall|i: int| 0 <= i < m.roots.len() ==> m.tree.contains_key(#[trigger] m.roots[i])
    }

    pub fn new() -> (r: Self)
        ensures
            r.wf(),
            r@.roots.len() == 0,
            r@.domains.is_empty(),
            r@.jobs.is_empty(),
            r@.tree.is_empty(),
    {
        let r = Crawler {
            base_urls: Vec::new(),
            url_workers: Vec::new(),
            url_parents: Vec::new(),
            model: Ghost(
                CrawlerView {
                    roots: Seq::empty(),
                    domains: Map::empty(),
                    jobs: Map::empty(),
                    tree: Map::empty(),
                },
            ),
        };
        r
    }

    /// Whether the site of `url` is being crawled.
    pub fn base_url_is_crawling(&self, url: &WebUrl) -> (r: bool)
        requires
            self.wf(),
        ensures
            r == is_crawling(self@, url@),
    {
        let base_url = strip_url_to_domain(url);
        match self.find_domain(&base_url) {
            Some(i) => self.base_urls[i].1.is_crawling(),
            None => false,
        }
    }

    fn register_tree_key(&mut self, key: &WebUrl)
        requires
            old(self).wf(),
        ensures
            final(self).wf(),
            final(self)@ == (CrawlerView {
                tree: if old(self)@.tree.contains_key(key@) {
                    old(self)@.tree
                } else {
                    old(self)@.tree.insert(key@, Seq::empty())
                },
                ..old(self)@
            }),
            final(self).url_parents@.len() >= old(self).url_parents@.len(),
            forall|j: int|
                0 <= j < old(self).url_parents@.len() ==> (#[trigger] final(self).url_parents@[j]).0@
                    == old(self).url_parents@[j].0@,
    {
        if self.find_tree(key).is_none() {
            let ghost old_t = self.url_parents@;
            self.url_parents.push((key.copy(), Vec::new()));
            self.model = Ghost(CrawlerView { tree: self.model@.tree.insert(key@, Seq::empty()), ..self.model@ });
            proof {
                let t = self.url_parents@;
                assert(self.model@.tree.dom() =~= old(self)@.tree.dom().insert(key@));
                assert(urls_view(t[t.len() - 1].1@) =~= Seq::<UrlView>::empty());
                assert forall|k: UrlView| #[trigger] self.model@.tree.contains_key(k) implies exists|i: int|
                    0 <= i < t.len() && (#[trigger] t[i]).0@ == k by {
                    if k != key@ {
                        let i = choose|i: int| 0 <= i < old_t.len() && (#[trigger] old_t[i]).0@ == k;
                        assert(t[i] == old_t[i]);
                    } else {
                        assert(t[t.len() - 1].0@ == k);
                    }
                }
                assert forall|i: int| 0 <= i < t.len() implies self.model@.tree.contains_key((#[trigger] t[i]).0@)
                    && self.model@.tree[t[i].0@] == urls_view(t[i].1@) by {
                    if i < old_t.len() {
                        assert(t[i] == old_t[i]);
                    }
                }
            }
        }
    }

    /// Turns the site of `url` on, registering it and its root in the tree
    /// if it is new.
    fn base_url_start_crawling(&mut self, url: &WebUrl)
        requires
            old(self).wf(),
        ensures
            final(self).wf(),
            final(self)@ == activate(old(self)@, url@),
    {
        let base_url = strip_url_to_domain(url);
        let ghost d = base_url@;
        self.register_tree_key(&base_url);
        let ghost m0 = self@;
        let ghost old_b = self.base_urls@;
        let ghost t0 = self.url_parents@;
        let mut on = BaseUrl::new();
        on.start_crawling();
        match self.find_domain(&base_url) {
            Some(i) => {
                self.base_urls.set(i, (base_url.copy(), on));
                self.model = Ghost(CrawlerView { domains: self.model@.domains.insert(d, true), ..self.model@ });
                proof {
                    let b = self.base_urls@;
                    assert(self.model@.roots =~= activate(m0, url@).roots);
                    assert forall|j: int| 0 <= j < b.len() implies self.model@.domains.contains_key((#[trigger] b[j]).0@)
                        && self.model@.domains[b[j].0@] == b[j].1@ by {
                        if j != i {
                            assert(b[j] == old_b[j]);
                        }
                    }
                    assert forall|j: int, k: int| 0 <= j < k < b.len() implies (#[trigger] b[j]).0@ != (#[trigger] b[k]).0@ by {
                        assert(old_b[j].0@ != old_b[k].0@);
                    }
                    assert forall|j: int| 0 <= j < b.len() implies self.model@.roots[j] == (#[trigger] b[j]).0@ by {
                        if j != i {
                            assert(b[j] == old_b[j]);
                        } else {
                            assert(m0.roots[j] == old_b[j].0@);
                        }
                    }
                    assert(self.model@.jobs == m0.jobs);
                    assert(self.model@.tree == m0.tree);
                    assert(self.url_parents@ == t0);
                    assert(self.wf());
                }
            },
            None => {
                self.base_urls.push((base_url.copy(), on));
                self.model = Ghost(CrawlerView {
                    roots: self.model@.roots.push(d),
                    domains: self.model@.domains.insert(d, true),
                    ..self.model@
                });
                proof {
                    let b = self.base_urls@;
                    assert forall|j: int| 0 <= j < b.len() implies self.model@.roots[j] == (#[trigger] b[j]).0@ by {
                        if j < old_b.len() {
                            assert(b[j] == old_b[j]);
                        }
                    }
                    assert forall|j: int| 0 <= j < b.len() implies self.model@.domains.contains_key((#[trigger] b[j]).0@)
                        && self.model@.domains[b[j].0@] == b[j].1@ by {
                        if j < old_b.len() {
                            assert(b[j] == old_b[j]);
                            assert(m0.roots[j] == old_b[j].0@);
                        }
                    }
                    assert forall|k: UrlView| #[trigger] self.model@.domains.contains_key(k) implies self.model@.roots.contains(k) by {
                        if k == d {
                            assert(self.model@.roots[old_b.len() as int] == d);
                        } else {
                            let j = choose|j: int| 0 <= j < m0.roots.len() && m0.roots[j] == k;
                            assert(self.model@.roots[j] == k);
                        }
                    }
                    assert forall|j: int, k: int| 0 <= j < k < b.len() implies (#[trigger] b[j]).0@ != (#[trigger] b[k]).0@ by {
                        if k < old_b.len() {
                            assert(old_b[j].0@ != old_b[k].0@);
                        } else {
                            assert(b[j] == old_b[j]);
                            assert(m0.roots[j] == old_b[j].0@);
                            assert(m0.domains.contains_key(old_b[j].0@));
                        }
                    }
                    assert(self.model@.roots.len() == b.len());
                    assert(self.model@.jobs == m0.jobs);
                    assert(self.model@.tree == m0.tree);
                    assert(self.url_parents@ == t0);
                    assert(self.wf());
                }
            },
        }
        proof {
            assert(self@ == activate(old(self)@, url@));
        }
    }

    /// Turns the site of `url` off; `false` when the site is not known.
    fn base_url_stop_crawling(&mut self, url: &WebUrl) -> (r: bool)
        requires
            old(self).wf(),
        ensures
            final(self).wf(),
            final(self)@ == deactivate(old(self)@, url@),
            r == old(self)@.domains.contains_key(domain_of(url@)),
    {
        let base_url = strip_url_to_domain(url);
        let ghost d = base_url@;
        let ghost old_b = self.base_urls@;
        match self.find_domain(&base_url) {
            Some(i) => {
                let mut off = BaseUrl::new();
                off.stop_crawling();
                self.base_urls.set(i, (base_url.copy(), off));
                self.model = Ghost(CrawlerView { domains: self.model@.domains.insert(d, false), ..self.model@ });
                proof {
                    let b = self.base_urls@;
                    assert forall|j: int| 0 <= j < b.len() implies self.model@.roots[j] == (#[trigger] b[j]).0@ by {
                        if j != i {
                            assert(b[j] == old_b[j]);
                        }
                    }
                    assert forall|j: int| 0 <= j < b.len() implies self.model@.domains.contains_key((#[trigger] b[j]).0@)
                        && self.model@.domains[b[j].0@] == b[j].1@ by {
                        if j != i {
                            assert(b[j] == old_b[j]);
                        }
                    }
                    assert forall|j: int, k: int| 0 <= j < k < b.len() implies (#[trigger] b[j]).0@ != (#[trigger] b[k]).0@ by {
                        assert(old_b[j].0@ != old_b[k].0@);
                    }
                    assert(self.model@.jobs == old(self)@.jobs);
                    assert(self.model@.tree == old(self)@.tree);
                    assert(self.model@.roots == old(self)@.roots);
                    assert(self.url_workers@ == old(self).url_workers@);
                    assert(self.url_parents@ == old(self).url_parents@);
                    assert(self.wf());
                }
                true
            },
            None => false,
        }
    }

    /// Adds `u` to the children of the tree entry at `i`, unless it is there.
    fn tree_add_child(&mut self, i: usize, u: &WebUrl)
        requires
            old(self).wf(),
            i < old(self).url_parents@.len(),
            old(self)@.tree.contains_key(u@),
        ensures
            final(self).wf(),
            final(self)@ == (CrawlerView {
                tree: old(self)@.tree.insert(
                    old(self).url_parents@[i as int].0@,
                    add_child(old(self)@.tree[old(self).url_parents@[i as int].0@], u@),
                ),
                ..old(self)@
            }),
    {
        let ghost old_t = self.url_parents@;
        let ghost key_v = old_t[i as int].0@;
        let (key, mut children) = self.url_parents.remove(i);
        let ghost old_children = urls_view(children@);
        let mut found = false;
        let mut j: usize = 0;
        while j < children.len()
            invariant
                j <= children@.len(),
                urls_view(children@) == old_children,
                found == exists|k: int| 0 <= k < j && children@[k]@ == u@,
            decreases children@.len() - j,
        {
            if children[j].same_as(u) {
                found = true;
            }
            j = j + 1;
        }
        proof {
            if found {
                let k = choose|k: int| 0 <= k < children@.len() && children@[k]@ == u@;
                assert(old_children[k] == u@);
            }
            if old_children.contains(u@) {
                let k = choose|k: int| 0 <= k < old_children.len() && old_children[k] == u@;
                assert(children@[k]@ == u@);
            }
        }
        if !found {
            children.push(u.copy());
            proof {
                assert(urls_view(children@) =~= old_children.push(u@));
            }
        }
        self.url_parents.insert(i, (key, children));
        self.model = Ghost(CrawlerView { tree: self.model@.tree.insert(key_v, add_child(old_children, u@)), ..self.model@ });
        proof {
            let t = self.url_parents@;
            assert(t.len() == old_t.len());
            assert(self.model@.tree.dom() =~= old(self)@.tree.dom());
            assert forall|a: int| 0 <= a < t.len() && a != i implies #[trigger] t[a] == old_t[a] by {}
            assert forall|a: int| 0 <= a < t.len() implies self.model@.tree.contains_key((#[trigger] t[a]).0@)
                && self.model@.tree[t[a].0@] == urls_view(t[a].1@) by {
                if a != i {
                    assert(t[a] == old_t[a]);
                    assert(old_t[a].0@ != key_v);
                }
            }
            assert forall|k: UrlView| #[trigger] self.model@.tree.contains_key(k) implies exists|a: int|
                0 <= a < t.len() && (#[trigger] t[a]).0@ == k by {
                if k != key_v {
                    let a = choose|a: int| 0 <= a < old_t.len() && (#[trigger] old_t[a]).0@ == k;
                    assert(t[a] == old_t[a]);
                } else {
                    assert(t[i as int].0@ == k);
                }
            }
            assert forall|a: int, b: int| 0 <= a < b < t.len() implies (#[trigger] t[a]).0@ != (#[trigger] t[b]).0@ by {
                assert(old_t[a].0@ != old_t[b].0@);
            }
            assert(self.model@.jobs == old(self)@.jobs);
            assert(self.model@.domains == old(self)@.domains);
            assert(self.model@.roots == old(self)@.roots);
            assert(self.url_workers@ == old(self).url_workers@);
            assert(self.base_urls@ == old(self).base_urls@);
            assert(self.wf());
        }
    }

    /// Registers `url` in the tree under `parent`, or under the site's root
    /// when there is none.
    fn register_url(&mut self, parent: Option<&WebUrl>, url: &WebUrl) -> (r: Result<(), CrawlerError>)
        requires
            old(self).wf(),
        ensures
            final(self).wf(),
            match register_in_tree(old(self)@.tree, parent_view(parent), url@) {
                Ok(t) => r is Ok && final(self)@ == (CrawlerView { tree: t, ..old(self)@ }),
                Err(e) => r is Err && r->Err_0@ == e && final(self)@ == old(self)@,
            },
    {
        let slot: Option<usize> = match parent {
            Some(p) => match self.find_tree(p) {
                Some(i) => Some(i),
                None => {
                    return Err(CrawlerError::ParentUrlWorkerNotFound(p.as_text()));
                },
            },
            None => {
                let base_url = strip_url_to_domain(url);
                if !url.same_as(&base_url) {
                    match self.find_tree(&base_url) {
                        Some(i) => Some(i),
                        None => {
                            return Err(CrawlerError::BaseUrlNotFound(url.as_text()));
                        },
                    }
                } else {
                    None
                }
            },
        };
        self.register_tree_key(url);
        if let Some(i) = slot {
            self.tree_add_child(i, url);
        }
        Ok(())
    }

    /// Creates the job of `url`, which has none yet.
    fn create_worker(&mut self, url: &WebUrl)
        requires
            old(self).wf(),
            !old(self)@.jobs.contains_key(url@),
        ensures
            final(self).wf(),
            final(self)@ == (CrawlerView {
                jobs: old(self)@.jobs.insert(url@, JobView { last_fetch: None, fetching: false }),
                ..old(self)@
            }),
    {
        let ghost mid = self@;
        let ghost old_w = self.url_workers@;
        self.url_workers.push(UrlWorker::new(url));
        self.model = Ghost(CrawlerView {
            jobs: self.model@.jobs.insert(url@, JobView { last_fetch: None, fetching: false }),
            ..self.model@
        });
        proof {
            let w = self.url_workers@;
            assert forall|a: int| 0 <= a < w.len() implies self.model@.jobs.contains_key((#[trigger] w[a]).url_view())
                && self.model@.jobs[w[a].url_view()] == w[a]@ by {
                if a < old_w.len() {
                    assert(w[a] == old_w[a]);
                }
            }
            assert forall|k: UrlView| #[trigger] self.model@.jobs.contains_key(k) implies exists|a: int|
                0 <= a < w.len() && (#[trigger] w[a]).url_view() == k by {
                if k != url@ {
                    let a = choose|a: int| 0 <= a < old_w.len() && (#[trigger] old_w[a]).url_view() == k;
                    assert(w[a] == old_w[a]);
                } else {
                    assert(w[old_w.len() as int].url_view() == k);
                }
            }
            assert forall|a: int, b: int| 0 <= a < b < w.len() implies (#[trigger] w[a]).url_view() != (#[trigger] w[b]).url_view() by {
                if b < old_w.len() {
                    assert(old_w[a].url_view() != old_w[b].url_view());
                } else {
                    assert(w[a] == old_w[a]);
                    assert(mid.jobs.contains_key(old_w[a].url_view()));
                }
            }
            assert(self.model@.tree == mid.tree);
            assert(self.model@.domains == mid.domains);
            assert(self.model@.roots == mid.roots);
            assert(self.url_parents@ == old(self).url_parents@);
            assert(self.base_urls@ == old(self).base_urls@);
            assert(self.wf());
        }
    }

    /// Puts `w` in place of the job at `i`, which has the same URL.
    fn replace_worker(&mut self, i: usize, w: UrlWorker)
        requires
            old(self).wf(),
            i < old(self).url_workers@.len(),
            w.url_view() == old(self).url_workers@[i as int].url_view(),
        ensures
            final(self).wf(),
            final(self)@ == (CrawlerView { jobs: old(self)@.jobs.insert(w.url_view(), w@), ..old(self)@ }),
    {
        let ghost old_w = self.url_workers@;
        let ghost key = w.url_view();
        let ghost wv = w@;
        self.url_workers.set(i, w);
        self.model = Ghost(CrawlerView { jobs: self.model@.jobs.insert(key, wv), ..self.model@ });
        proof {
            let ws = self.url_workers@;
            assert forall|a: int| 0 <= a < ws.len() && a != i implies #[trigger] ws[a] == old_w[a] by {}
            assert forall|a: int| 0 <= a < ws.len() implies self.model@.jobs.contains_key((#[trigger] ws[a]).url_view())
                && self.model@.jobs[ws[a].url_view()] == ws[a]@ by {
                if a != i {
                    assert(ws[a] == old_w[a]);
                    assert(old_w[a].url_view() != old_w[i as int].url_view());
                }
            }
            assert forall|k: UrlView| #[trigger] self.model@.jobs.contains_key(k) implies exists|a: int|
                0 <= a < ws.len() && (#[trigger] ws[a]).url_view() == k by {
                let a = choose|a: int| 0 <= a < old_w.len() && (#[trigger] old_w[a]).url_view() == k;
                if a != i {
                    assert(ws[a] == old_w[a]);
                } else {
                    assert(ws[i as int].url_view() == k);
                }
            }
            assert forall|a: int, b: int| 0 <= a < b < ws.len() implies (#[trigger] ws[a]).url_view() != (#[trigger] ws[b]).url_view() by {
                assert(old_w[a].url_view() != old_w[b].url_view());
            }
            assert(self.url_parents@ == old(self).url_parents@);
            assert(self.base_urls@ == old(self).base_urls@);
            assert(self.wf());
        }
    }

    /// Starts the crawl job of `url` at time `now` (milliseconds), found on
    /// the page `parent` or asked for directly.
    pub fn start_job(&mut self, parent: Option<&WebUrl>, url: &WebUrl, now: i64) -> (r: Result<
        JobStep,
        CrawlerError,
    >)
        requires
            old(self).wf(),
        ensures
            final(self).wf(),
            (final(self)@, step_result_view(r)) == start_job_spec(
                old(self)@,
                parent_view(parent),
                url@,
                now,
            ),
    {
        let url = strip_url_to_domain_and_path(url);
        if !self.base_url_is_crawling(&url) {
            return Ok(JobStep::DomainStopped);
        }
        if let Err(e) = self.register_url(parent, &url) {
            return Err(e);
        }
        if self.find_worker(&url).is_none() {
            self.create_worker(&url);
        }
        match self.find_worker(&url) {
            Some(i) => {
                let mut w = self.url_workers[i].copy();
                let go = w.start(now);
                self.replace_worker(i, w);
                if go {
                    Ok(JobStep::Fetch(url))
                } else {
                    Ok(JobStep::Skipped)
                }
            },
            None => Ok(JobStep::Skipped),
        }
    }

    /// Records the end of a fetch of the job `url`: `Some(t)` when the page
    /// was fetched at `t`, `None` when the fetch failed.
    pub fn finish_job(&mut self, url: &WebUrl, fetched_at: Option<i64>)
        requires
            old(self).wf(),
        ensures
            final(self).wf(),
            final(self)@ == finish_job_spec(old(self)@, url@, fetched_at),
    {
        if let Some(i) = self.find_worker(url) {
            let mut w = self.url_workers[i].copy();
            w.finish(fetched_at);
            self.replace_worker(i, w);
        }
    }

    fn node_text(u: &WebUrl, depth: usize) -> (r: Vec<char>)
        ensures
            r@ == node_name(u@, depth as nat),
    {
        let mut v: Vec<char> = Vec::new();
        if depth == 0 {
            let t = u.as_text();
            append_str(&mut v, t.as_str());
        } else {
            append_str(&mut v, u.path.as_str());
        }
        proof {
            assert(v@ =~= node_name(u@, depth as nat));
        }
        v
    }

    fn line_text(depth: usize, name: &Vec<char>) -> (r: String)
        ensures
            r@ == indent(depth as nat) + name@,
    {
        let mut v: Vec<char> = Vec::new();
        let mut k: usize = 0;
        while k < depth
            invariant
                k <= depth,
                v@ == indent(k as nat),
            decreases depth - k,
        {
            v.push(' ');
            k = k + 1;
            proof {
                assert(v@ =~= indent(k as nat));
            }
        }
        let mut n = name.clone();
        v.append(&mut n);
        string_from_chars(&v)
    }

    /// Renders `nodes` at `depth`, with at most `fuel` further levels, onto
    /// `out`; `false` when a node is not registered in the tree.
    fn print_children(&self, nodes: &Vec<WebUrl>, depth: usize, fuel: usize, out: &mut Vec<String>) -> (ok: bool)
        requires
            self.wf(),
            depth + fuel <= usize::MAX,
        ensures
            match render_level(self@.tree, urls_view(nodes@), depth as nat, fuel as nat) {
                Some(lines) => ok && lines_view(final(out)@) == lines_view(old(out)@) + lines,
                None => !ok,
            },
        decreases fuel,
    {
        let ghost tree = self@.tree;
        let ghost nv = urls_view(nodes@);
        let ghost out0 = lines_view(out@);
        let mut childless: Vec<char> = Vec::new();
        let mut n_childless: usize = 0;
        let mut i: usize = 0;
        proof {
            assert(nv.subrange(0, 0) =~= Seq::<UrlView>::empty());
        }
        while i < nodes.len()
            invariant
                self.wf(),
                tree == self@.tree,
                nv == urls_view(nodes@),
                i <= nodes@.len(),
                depth + fuel <= usize::MAX,
                render_childed(tree, nv.subrange(0, i as int), depth as nat, fuel as nat) is Some,
                lines_view(out@) == out0 + render_childed(tree, nv.subrange(0, i as int), depth as nat, fuel as nat)->0,
                n_childless == childless_names(tree, nv.subrange(0, i as int), depth as nat).len(),
                childless@ == join_names(childless_names(tree, nv.subrange(0, i as int), depth as nat)),
                n_childless <= i,
            decreases nodes@.len() - i,
        {
            let ghost pre = nv.subrange(0, i as int);
            let ghost cur = nv.subrange(0, i + 1);
            proof {
                assert(cur.drop_last() =~= pre);
                assert(cur.last() == nodes@[i as int]@);
            }
            let node = &nodes[i];
            match self.find_tree(node) {
                None => {
                    proof {
                        lemma_render_none_extends(tree, nv, i + 1, depth as nat, fuel as nat);
                    }
                    return false;
                },
                Some(j) => {
                    let children = &self.url_parents[j].1;
                    proof {
                        assert(tree[node@] == urls_view(children@));
                    }
                    if children.len() == 0 {
                        let mut name = Self::node_text(node, depth);
                        let ghost names = childless_names(tree, pre, depth as nat);
                        if n_childless > 0 {
                            childless.push(' ');
                        }
                        childless.append(&mut name);
                        n_childless = n_childless + 1;
                        proof {
                            let nn = names.push(node_name(node@, depth as nat));
                            assert(nn.drop_last() =~= names);
                            assert(childless_names(tree, cur, depth as nat) == nn);
                            assert(childless@ =~= join_names(nn));
                        }
                    } else {
                        let name = Self::node_text(node, depth);
                        let line = Self::line_text(depth, &name);
                        let ghost prev = lines_view(out@);
                        out.push(line);
                        proof {
                            assert(lines_view(out@) =~= prev.push(line@));
                        }
                        if fuel > 0 {
                            let ok = self.print_children(children, depth + 1, fuel - 1, out);
                            if !ok {
                                proof {
                                    lemma_render_none_extends(tree, nv, i + 1, depth as nat, fuel as nat);
                                }
                                return false;
                            }
                        }
                        proof {
                            assert(childless_names(tree, cur, depth as nat) == childless_names(tree, pre, depth as nat));
                            assert(lines_view(out@) =~= out0 + render_childed(tree, cur, depth as nat, fuel as nat)->0);
                        }
                    }
                },
            }
            i = i + 1;
        }
        proof {
            assert(nv.subrange(0, nodes@.len() as int) =~= nv);
        }
        let last = Self::line_text(depth, &childless);
        let ghost prev = lines_view(out@);
        out.push(last);
        proof {
            assert(lines_view(out@) =~= prev.push(last@));
        }
        true
    }

    /// Renders the tree of discovered URLs, one line each: each site by its
    /// URL, the pages below it by their paths, one more space of indentation
    /// per level; at each level the nodes with children come first, each
    /// followed by its subtree, then one line with the childless ones.
    pub fn handle_command_list(&self) -> (r: Result<Vec<String>, CrawlerError>)
        requires
            self.wf(),
        ensures
            render_tree(self@) is Some,
            r is Ok && lines_view(r->Ok_0@) == render_tree(self@)->0,
    {
        proof {
            lemma_tree_renders(self@);
        }
        let mut roots: Vec<WebUrl> = Vec::new();
        let mut i: usize = 0;
        while i < self.base_urls.len()
            invariant
                self.wf(),
                i <= self.base_urls@.len(),
                urls_view(roots@) == self@.roots.subrange(0, i as int),
            decreases self.base_urls@.len() - i,
        {
            let ghost before = roots@;
            let r = self.base_urls[i].0.copy();
            roots.push(r);
            proof {
                assert(self@.roots[i as int] == self.base_urls@[i as int].0@);
                assert(roots@ == before.push(r));
                assert(urls_view(roots@) =~= urls_view(before).push(r@));
                assert(self@.roots.subrange(0, i + 1) =~= self@.roots.subrange(0, i as int).push(r@));
            }
            i = i + 1;
        }
        proof {
            assert(self@.roots.subrange(0, i as int) =~= self@.roots);
        }
        let mut out: Vec<String> = Vec::new();
        let fuel = self.url_parents.len();
        let ok = self.print_children(&roots, 0, fuel, &mut out);
        proof {
            assert(lines_view(Seq::<String>::empty()) =~= Seq::<Seq<char>>::empty());
        }
        if ok {
            proof {
                let lines = render_tree(self@)->0;
                assert(Seq::<Seq<char>>::empty() + lines =~= lines);
            }
            Ok(out)
        } else {
            Err(CrawlerError::TreeCorrupt(String::new()))
        }
    }

    fn handle_command_start(&mut self, url_str: &str, now: i64) -> (r: Result<JobStep, CrawlerError>)
        requires
            old(self).wf(),
        ensures
            final(self).wf(),
            match parsed_url(url_str@) {
                Err(e) => r is Err && r->Err_0@ == ErrorView::InvalidUrl(e) && final(self)@ == old(self)@,
                Ok(u) => (final(self)@, step_result_view(r)) == start_command_spec(old(self)@, u, now),
            },
    {
        match parse_url(url_str) {
            Err(e) => Err(CrawlerError::InvalidUrl(e)),
            Ok(url) => {
                self.base_url_start_crawling(&url);
                self.start_job(None, &url, now)
            },
        }
    }

    fn handle_command_stop(&mut self, url_str: &str) -> (r: Result<bool, CrawlerError>)
        requires
            old(self).wf(),
        ensures
            final(self).wf(),
            match parsed_url(url_str@) {
                Err(e) => r is Err && r->Err_0@ == ErrorView::InvalidUrl(e) && final(self)@ == old(self)@,
                Ok(u) => r is Ok && r->Ok_0 == old(self)@.domains.contains_key(domain_of(u))
                    && final(self)@ == deactivate(old(self)@, u),
            },
    {
        match parse_url(url_str) {
            Err(e) => Err(CrawlerError::InvalidUrl(e)),
            Ok(url) => {
                let url = strip_url_to_domain(&url);
                Ok(self.base_url_stop_crawling(&url))
            },
        }
    }

    /// Serves one command at time `now` (milliseconds since the epoch).
    pub fn handle_command_at(&mut self, command: Command, now: i64) -> (r: Result<
        CommandOutcome,
        CrawlerError,
    >)
        requires
            old(self).wf(),
        ensures
            final(self).wf(),
            (final(self)@, outcome_result_view(r)) == handle_command_spec(
                old(self)@,
                command@,
                now,
            ),
    {
        match command {
            Command::Start(url) => match self.handle_command_start(url.as_str(), now) {
                Ok(step) => Ok(CommandOutcome::Started(step)),
                Err(e) => Err(e),
            },
            Command::Stop(url) => match self.handle_command_stop(url.as_str()) {
                Ok(known) => Ok(CommandOutcome::Stopped(known)),
                Err(e) => Err(e),
            },
            Command::List => match self.handle_command_list() {
                Ok(lines) => Ok(CommandOutcome::Listed(lines)),
                Err(e) => Err(e),
            },
        }
    }

    /// Serves one command at the current time.
    pub fn handle_command(&mut self, command: Command) -> (r: Result<CommandOutcome, CrawlerError>)
        requires
            old(self).wf(),
        ensures
            final(self).wf(),
            exists|now: i64|
                (final(self)@, outcome_result_view(r)) == #[trigger] handle_command_spec(
                    old(self)@,
                    command@,
                    now,
                ),
    {
        let now = now_millis();
        self.handle_command_at(command, now)
    }

    /// Starts the job of a link found on the page `parent`, at the current
    /// time.
    pub fn start_job_now(&mut self, parent: Option<&WebUrl>, url: &WebUrl) -> (r: Result<
        JobStep,
        CrawlerError,
    >)
        requires
            old(self).wf(),
        ensures
            final(self).wf(),
            exists|now: i64|
                (final(self)@, step_result_view(r)) == #[trigger] start_job_spec(
                    old(self)@,
                    parent_view(parent),
                    url@,
                    now,
                ),
    {
        let now = now_millis();
        self.start_job(parent, url, now)
    }

    /// Records the end of a fetch of the job `url`, successful or not, at
    /// the current time.
    pub fn finish_job_now(&mut self, url: &WebUrl, fetched: bool)
        requires
            old(self).wf(),
        ensures
            final(self).wf(),
            !fetched ==> final(self)@ == finish_job_spec(old(self)@, url@, None),
            fetched ==> exists|now: i64|
                final(self)@ == #[trigger] finish_job_spec(old(self)@, url@, Some(now)),
    {
        if fetched {
            let now = now_millis();
            self.finish_job(url, Some(now));
        } else {
            self.finish_job(url, None);
        }
    }

    fn find_domain(&self, k: &WebUrl) -> (r: Option<usize>)
        requires
            self.wf(),
        ensures
            match r {
                Some(i) => i < self.base_urls@.len() && self.base_urls@[i as int].0@ == k@
                    && self@.domains.contains_key(k@),
                None => !self@.domains.contains_key(k@),
            },
    {
        let mut i: usize = 0;
        while i < self.base_urls.len()
            invariant
                self.wf(),
                i <= self.base_urls@.len(),
                forall|j: int| 0 <= j < i ==> (#[trigger] self.base_urls@[j]).0@ != k@,
            decreases self.base_urls@.len() - i,
        {
            if self.base_urls[i].0.same_as(k) {
                return Some(i);
            }
            i = i + 1;
        }
        proof {
            if self@.domains.contains_key(k@) {
                let j = choose|j: int| 0 <= j < self@.roots.len() && self@.roots[j] == k@;
                assert(self.base_urls@[j].0@ == k@);
            }
        }
        None
    }

    fn find_worker(&self, k: &WebUrl) -> (r: Option<usize>)
        requires
            self.wf(),
        ensures
            match r {
                Some(i) => i < self.url_workers@.len() && self.url_workers@[i as int].url_view()
                    == k@ && self@.jobs.contains_key(k@),
                None => !self@.jobs.contains_key(k@),
            },
    {
        let mut i: usize = 0;
        while i < self.url_workers.len()
            invariant
                self.wf(),
                i <= self.url_workers@.len(),
                forall|j: int| 0 <= j < i ==> (#[trigger] self.url_workers@[j]).url_view() != k@,
            decreases self.url_workers@.len() - i,
        {
            if self.url_workers[i].url().same_as(k) {
                return Some(i);
            }
            i = i + 1;
        }
        None
    }

    fn find_tree(&self, k: &WebUrl) -> (r: Option<usize>)
        requires
            self.wf(),
        ensures
            match r {
                Some(i) => i < self.url_parents@.len() && self.url_parents@[i as int].0@ == k@
                    && self@.tree.contains_key(k@),
                None => !self@.tree.contains_key(k@),
            },
    {
        let mut i: usize = 0;
        while i < self.url_parents.len()
            invariant
                self.wf(),
                i <= self.url_parents@.len(),
                forall|j: int| 0 <= j < i ==> (#[trigger] self.url_parents@[j]).0@ != k@,
            decreases self.url_parents@.len() - i,
        {
            if self.url_parents[i].0.same_as(k) {
                return Some(i);
            }
            i = i + 1;
        }
        None
    }
}

} // verus!
