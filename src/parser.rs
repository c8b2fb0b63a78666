//! Single-pass extraction of the `href` values of closed `<a>` elements,
//! with deterministic partitioning of the anchors among several scanners.
use vstd::multiset::Multiset;
use vstd::prelude::*;

use crate::text::{chars_of, string_from_chars};

verus! {

/// Unicode `White_Space` code points, as `char::is_whitespace` classifies them.
pub open spec fn spec_is_whitespace(c: char) -> bool {
    ('\u{9}' <= c && c <= '\u{d}') || c == ' ' || c == '\u{85}' || c == '\u{a0}' || c == '\u{1680}'
        || ('\u{2000}' <= c && c <= '\u{200a}') || c == '\u{2028}' || c == '\u{2029}'
        || c == '\u{202f}' || c == '\u{205f}' || c == '\u{3000}'
}

pub fn is_whitespace(c: char) -> (r: bool)
    ensures
        r == spec_is_whitespace(c),
{
    ('\u{9}' <= c && c <= '\u{d}') || c == ' ' || c == '\u{85}' || c == '\u{a0}' || c == '\u{1680}'
        || ('\u{2000}' <= c && c <= '\u{200a}') || c == '\u{2028}' || c == '\u{2029}'
        || c == '\u{202f}' || c == '\u{205f}' || c == '\u{3000}'
}

/// The tokenizer's state between two characters.
pub struct ScanState {
    pub in_tag: bool,
    pub in_anchor_tag_text: bool,
    pub has_tag_name: bool,
    pub tag_name: Seq<char>,
    pub current_attr: Seq<char>,
    pub current_value: Seq<char>,
    pub is_in_href: bool,
    pub is_in_value: bool,
    pub quote_char: Option<char>,
    pub pending_href: Option<Seq<char>>,
}

pub open spec fn initial_scan_state() -> ScanState {
    ScanState {
        in_tag: false,
        in_anchor_tag_text: false,
        has_tag_name: false,
        tag_name: Seq::empty(),
        current_attr: Seq::empty(),
        current_value: Seq::empty(),
        is_in_href: false,
        is_in_value: false,
        quote_char: None,
        pending_href: None,
    }
}

pub open spec fn is_anchor_name(t: Seq<char>) -> bool {
    t =~= seq!['a']
}

pub open spec fn is_href_name(t: Seq<char>) -> bool {
    t =~= seq!['h', 'r', 'e', 'f']
}

/// `t` is one or more `/` followed by `a`.
pub open spec fn is_anchor_closing_name(t: Seq<char>) -> bool
    decreases t.len(),
{
    if t.len() < 2 || t[0] != '/' {
        false
    } else if t.len() == 2 {
        t[1] == 'a'
    } else {
        is_anchor_closing_name(t.drop_first())
    }
}

/// One character of input: the next state, and `Some(h)` when the character
/// closes an anchor (`h` being the href it carried, if any).
pub open spec fn scan_step(s: ScanState, c: char) -> (ScanState, Option<Option<Seq<char>>>) {
    if c == '<' {
        (
            ScanState {
                in_tag: true,
                has_tag_name: false,
                tag_name: Seq::empty(),
                current_attr: Seq::empty(),
                current_value: Seq::empty(),
                is_in_href: false,
                is_in_value: false,
                quote_char: None,
                ..s
            },
            None,
        )
    } else if !s.in_tag {
        (s, None)
    } else if c == '>' {
        if is_anchor_name(s.tag_name) {
            (ScanState { in_tag: false, in_anchor_tag_text: true, ..s }, None)
        } else if is_anchor_closing_name(s.tag_name) && s.in_anchor_tag_text {
            (
                ScanState { in_tag: false, in_anchor_tag_text: false, pending_href: None, ..s },
                Some(s.pending_href),
            )
        } else {
            (ScanState { in_tag: false, ..s }, None)
        }
    } else if !s.has_tag_name {
        if spec_is_whitespace(c) {
            if s.tag_name.len() > 0 {
                (ScanState { has_tag_name: true, ..s }, None)
            } else {
                (s, None)
            }
        } else {
            (ScanState { tag_name: s.tag_name.push(c), ..s }, None)
        }
    } else if !is_anchor_name(s.tag_name) {
        (s, None)
    } else if !s.is_in_value {
        if spec_is_whitespace(c) {
            (s, None)
        } else if c == '=' {
            (
                ScanState {
                    is_in_value: true,
                    current_value: Seq::empty(),
                    quote_char: None,
                    is_in_href: if is_href_name(s.current_attr) {
                        true
                    } else {
                        s.is_in_href
                    },
                    ..s
                },
                None,
            )
        } else if c != '/' {
            (ScanState { current_attr: s.current_attr.push(c), ..s }, None)
        } else {
            (s, None)
        }
    } else if s.quote_char is None {
        if c == '"' || c == '\'' {
            (ScanState { quote_char: Some(c), ..s }, None)
        } else {
            (s, None)
        }
    } else if Some(c) == s.quote_char {
        (
            ScanState {
                pending_href: if s.is_in_href {
                    Some(s.current_value)
                } else {
                    s.pending_href
                },
                is_in_value: false,
                is_in_href: false,
                current_attr: Seq::empty(),
                current_value: Seq::empty(),
                quote_char: None,
                ..s
            },
            None,
        )
    } else {
        (ScanState { current_value: s.current_value.push(c), ..s }, None)
    }
}

/// The state after reading `text`, and every anchor closed on the way, in
/// order, each with the href it carried.
pub open spec fn scan(text: Seq<char>) -> (ScanState, Seq<Option<Seq<char>>>)
    decreases text.len(),
{
    if text.len() == 0 {
        (initial_scan_state(), Seq::empty())
    } else {
        let prev = scan(text.drop_last());
        let (s, closed) = scan_step(prev.0, text.last());
        match closed {
            Some(h) => (s, prev.1.push(h)),
            None => (s, prev.1),
        }
    }
}

/// Every closed anchor of `text`, in document order.
pub open spec fn closed_anchors(text: Seq<char>) -> Seq<Option<Seq<char>>> {
    scan(text).1
}

/// The hrefs of those anchors whose ordinal is `index` modulo `n`.
pub open spec fn partition_hrefs(anchors: Seq<Option<Seq<char>>>, index: int, n: int) -> Seq<
    Seq<char>,
>
    decreases anchors.len(),
{
    if anchors.len() == 0 || n <= 0 {
        Seq::empty()
    } else {
        let rest = partition_hrefs(anchors.drop_last(), index, n);
        if (anchors.len() - 1) % n == index && anchors.last() is Some {
            rest.push(anchors.last()->0)
        } else {
            rest
        }
    }
}

/// What `find_anchors(text, index, n)` yields.
pub open spec fn anchor_hrefs(text: Seq<char>, index: int, n: int) -> Seq<Seq<char>> {
    partition_hrefs(closed_anchors(text), index, n)
}

pub proof fn lemma_closed_anchors_len(text: Seq<char>)
    ensures
        closed_anchors(text).len() <= text.len(),
    decreases text.len(),
{
    if text.len() > 0 {
        lemma_closed_anchors_len(text.drop_last());
    }
}

/// The multiset union of the hrefs of partitions `0 .. m` out of `n`.
pub open spec fn partitions_union(anchors: Seq<Option<Seq<char>>>, n: int, m: int) -> Multiset<
    Seq<char>,
>
    decreases m,
{
    if m <= 0 {
        Multiset::empty()
    } else {
        partitions_union(anchors, n, m - 1).add(partition_hrefs(anchors, m - 1, n).to_multiset())
    }
}

/// The partition that claims the anchor of ordinal `k`.
pub open spec fn claimed_by(anchors: Seq<Option<Seq<char>>>, k: int, i: int, n: int) -> bool {
    0 <= k < anchors.len() && 0 <= i < n && k % n == i
}

proof fn lemma_union_push(a: Seq<Option<Seq<char>>>, x: Option<Seq<char>>, n: int, m: int)
    requires
        n >= 1,
        0 <= m <= n,
    ensures
        partitions_union(a.push(x), n, m) == if x is Some && (a.len() as int) % n < m {
            partitions_union(a, n, m).insert(x->0)
        } else {
            partitions_union(a, n, m)
        },
    decreases m,
{
    broadcast use vstd::seq_lib::group_to_multiset_ensures;

    assert(a.push(x).drop_last() =~= a);
    if m > 0 {
        lemma_union_push(a, x, n, m - 1);
        let i = m - 1;
        if x is Some && (a.len() as int) % n == i {
            assert(partition_hrefs(a.push(x), i, n) == partition_hrefs(a, i, n).push(x->0));
        } else {
            assert(partition_hrefs(a.push(x), i, n) == partition_hrefs(a, i, n));
        }
        assert(partitions_union(a.push(x), n, m) =~= (if x is Some && (a.len() as int) % n < m {
            partitions_union(a, n, m).insert(x->0)
        } else {
            partitions_union(a, n, m)
        }));
    }
}

proof fn lemma_union_covers(a: Seq<Option<Seq<char>>>, n: int)
    requires
        n >= 1,
    ensures
        partitions_union(a, n, n) == partition_hrefs(a, 0, 1).to_multiset(),
    decreases a.len(),
{
    broadcast use vstd::seq_lib::group_to_multiset_ensures;

    if a.len() == 0 {
        assert(partitions_union(a, n, n) =~= Multiset::empty()) by {
            lemma_union_of_empty(a, n, n);
        }
        assert(partition_hrefs(a, 0, 1).to_multiset() =~= Multiset::empty());
    } else {
        let b = a.drop_last();
        let x = a.last();
        assert(b.push(x) =~= a);
        lemma_union_covers(b, n);
        lemma_union_push(b, x, n, n);
        assert((b.len() as int) % n < n);
        assert((a.len() - 1) % 1 == 0);
    }
}

proof fn lemma_union_of_empty(a: Seq<Option<Seq<char>>>, n: int, m: int)
    requires
        a.len() == 0,
    ensures
        partitions_union(a, n, m) =~= Multiset::empty(),
    decreases m,
{
    broadcast use vstd::seq_lib::group_to_multiset_ensures;

    if m > 0 {
        lemma_union_of_empty(a, n, m - 1);
        assert(partition_hrefs(a, m - 1, n) =~= Seq::<Seq<char>>::empty());
    }
}

/// The number of hrefs of partitions `0 .. m` out of `n`, added up.
pub open spec fn partitions_len_sum(anchors: Seq<Option<Seq<char>>>, n: int, m: int) -> int
    decreases m,
{
    if m <= 0 {
        0
    } else {
        partitions_len_sum(anchors, n, m - 1) + partition_hrefs(anchors, m - 1, n).len()
    }
}

/// `s` appears in `t` in order, possibly with other items between.
pub open spec fn is_subsequence(s: Seq<Seq<char>>, t: Seq<Seq<char>>) -> bool
    decreases t.len(),
{
    if s.len() == 0 {
        true
    } else if t.len() == 0 {
        false
    } else {
        (s.last() == t.last() && is_subsequence(s.drop_last(), t.drop_last())) || is_subsequence(
            s,
            t.drop_last(),
        )
    }
}

proof fn lemma_union_len(a: Seq<Option<Seq<char>>>, n: int, m: int)
    ensures
        partitions_union(a, n, m).len() == partitions_len_sum(a, n, m),
    decreases m,
{
    broadcast use vstd::seq_lib::group_to_multiset_ensures;

    if m > 0 {
        lemma_union_len(a, n, m - 1);
    }
}

proof fn lemma_partition_subsequence(a: Seq<Option<Seq<char>>>, i: int, n: int)
    requires
        n >= 1,
    ensures
        is_subsequence(partition_hrefs(a, i, n), partition_hrefs(a, 0, 1)),
    decreases a.len(),
{
    if a.len() > 0 {
        let d = a.drop_last();
        lemma_partition_subsequence(d, i, n);
        let s = partition_hrefs(d, i, n);
        let t = partition_hrefs(d, 0, 1);
        assert((a.len() - 1) % 1 == 0);
        if a.last() is Some {
            let h = a.last()->0;
            assert(t.push(h).drop_last() =~= t);
            if (a.len() - 1) % n == i {
                assert(s.push(h).drop_last() =~= s);
            }
        }
    }
}

/// Partitioning loses and duplicates nothing: the hrefs yielded by the `n`
/// partitions together are, as a multiset, exactly those yielded by a
/// single scanner, and their counts add up to its count; each partition
/// yields its hrefs in the single scanner's order; and every closed anchor
/// is claimed by exactly one partition.
pub proof fn lemma_partitions_complete_and_disjoint(text: Seq<char>, n: int)
    requires
        n >= 1,
    ensures
        partitions_union(closed_anchors(text), n, n) == anchor_hrefs(text, 0, 1).to_multiset(),
        partitions_len_sum(closed_anchors(text), n, n) == anchor_hrefs(text, 0, 1).len(),
        forall|i: int|
            0 <= i < n ==> is_subsequence(
                #[trigger] anchor_hrefs(text, i, n),
                anchor_hrefs(text, 0, 1),
            ),
        forall|k: int|
            0 <= k < closed_anchors(text).len() ==> #[trigger] claimed_by(
                closed_anchors(text),
                k,
                k % n,
                n,
            ),
        forall|k: int, i: int, j: int|
            #[trigger] claimed_by(closed_anchors(text), k, i, n) && #[trigger] claimed_by(
                closed_anchors(text),
                k,
                j,
                n,
            ) ==> i == j,
{
    broadcast use vstd::seq_lib::group_to_multiset_ensures;

    let a = closed_anchors(text);
    lemma_union_covers(a, n);
    lemma_union_len(a, n, n);
    assert forall|i: int| 0 <= i < n implies is_subsequence(
        #[trigger] anchor_hrefs(text, i, n),
        anchor_hrefs(text, 0, 1),
    ) by {
        lemma_partition_subsequence(a, i, n);
    }
}

/// No tag of `text` is a closing tag: between a `<` and a later `/` there
/// is always a character that is not whitespace.
pub open spec fn has_no_closing_tag(text: Seq<char>) -> bool {
    forall|j: int, k: int|
        0 <= j < k < text.len() && #[trigger] text[j] == '<' && #[trigger] text[k] == '/' ==> exists|m: int|
            j < m < k && !spec_is_whitespace(#[trigger] text[m])
}

/// What holds after each prefix of a text without closing tags: no anchor
/// has closed, no tag name starts with `/`, and an open tag whose name is
/// still empty follows a `<` and whitespace only.
proof fn lemma_no_closing_tag_scan(text: Seq<char>)
    requires
        has_no_closing_tag(text),
    ensures
        closed_anchors(text).len() == 0,
        scan(text).0.tag_name.len() > 0 ==> scan(text).0.tag_name[0] != '/',
        scan(text).0.has_tag_name ==> scan(text).0.tag_name.len() > 0,
        scan(text).0.in_tag && scan(text).0.tag_name.len() == 0 ==> exists|j: int|
            0 <= j < text.len() && text[j] == '<' && forall|m: int|
                j < m < text.len() ==> spec_is_whitespace(#[trigger] text[m]),
    decreases text.len(),
{
    if text.len() > 0 {
        let t = text.drop_last();
        let k = text.len() - 1;
        let c = text.last();
        assert forall|j: int, l: int|
            0 <= j < l < t.len() && #[trigger] t[j] == '<' && #[trigger] t[l] == '/' implies exists|m: int|
                j < m < l && !spec_is_whitespace(#[trigger] t[m]) by {
            assert(text[j] == '<' && text[l] == '/');
            let m = choose|m: int| j < m < l && !spec_is_whitespace(#[trigger] text[m]);
            assert(t[m] == text[m]);
        }
        lemma_no_closing_tag_scan(t);
        let st = scan(t).0;
        if c != '<' && st.in_tag && c != '>' && !st.has_tag_name && st.tag_name.len() == 0
            && !spec_is_whitespace(c) {
            let j = choose|j: int|
                0 <= j < t.len() && t[j] == '<' && forall|m: int|
                    j < m < t.len() ==> spec_is_whitespace(#[trigger] t[m]);
            if c == '/' {
                assert(text[j] == '<' && text[k] == '/');
                let m = choose|m: int| j < m < k && !spec_is_whitespace(#[trigger] text[m]);
                assert(t[m] == text[m]);
            }
            assert(scan(text).0.tag_name =~= seq![c]);
        }
        if scan(text).0.in_tag && scan(text).0.tag_name.len() == 0 {
            if c == '<' {
                assert(text[k] == '<');
            } else {
                let j = choose|j: int|
                    0 <= j < t.len() && t[j] == '<' && forall|m: int|
                        j < m < t.len() ==> spec_is_whitespace(#[trigger] t[m]);
                assert(text[j] == '<');
                assert forall|m: int| j < m < text.len() implies spec_is_whitespace(#[trigger] text[m]) by {
                    if m < k {
                        assert(t[m] == text[m]);
                    }
                }
            }
        }
    }
}

/// An anchor that is never closed yields nothing: a text in which no tag
/// is a closing tag yields no href, whatever the partition.
pub proof fn lemma_unclosed_anchor_yields_nothing(text: Seq<char>, index: int, n: int)
    requires
        has_no_closing_tag(text),
    ensures
        anchor_hrefs(text, index, n) == Seq::<Seq<char>>::empty(),
{
    lemma_no_closing_tag_scan(text);
    assert(partition_hrefs(closed_anchors(text), index, n) =~= Seq::<Seq<char>>::empty());
}

proof fn lemma_closed_anchors_prefix(text: Seq<char>, k: int)
    requires
        0 <= k <= text.len(),
    ensures
        closed_anchors(text.subrange(0, k)).len() <= closed_anchors(text).len(),
        closed_anchors(text).subrange(0, closed_anchors(text.subrange(0, k)).len() as int)
            == closed_anchors(text.subrange(0, k)),
    decreases text.len(),
{
    if k == text.len() {
        assert(text.subrange(0, k) =~= text);
        assert(closed_anchors(text).subrange(0, closed_anchors(text).len() as int) =~= closed_anchors(text));
    } else {
        let t = text.drop_last();
        assert(t.subrange(0, k) =~= text.subrange(0, k));
        lemma_closed_anchors_prefix(t, k);
        let c = closed_anchors(text.subrange(0, k));
        assert(closed_anchors(text).subrange(0, c.len() as int) =~= closed_anchors(t).subrange(0, c.len() as int));
    }
}

proof fn lemma_partition_prefix(a: Seq<Option<Seq<char>>>, b: Seq<Option<Seq<char>>>, index: int, n: int)
    requires
        b.len() <= a.len(),
        a.subrange(0, b.len() as int) == b,
    ensures
        partition_hrefs(b, index, n).len() <= partition_hrefs(a, index, n).len(),
        partition_hrefs(a, index, n).subrange(0, partition_hrefs(b, index, n).len() as int)
            == partition_hrefs(b, index, n),
    decreases a.len(),
{
    let pb = partition_hrefs(b, index, n);
    if b.len() == a.len() {
        assert(a.subrange(0, b.len() as int) =~= a);
        assert(partition_hrefs(a, index, n).subrange(0, pb.len() as int) =~= pb);
    } else {
        let d = a.drop_last();
        assert(d.subrange(0, b.len() as int) =~= b);
        lemma_partition_prefix(d, b, index, n);
        assert(partition_hrefs(a, index, n).subrange(0, pb.len() as int) =~= partition_hrefs(d, index, n).subrange(0, pb.len() as int));
    }
}

/// What a scan of the first `k` characters yields is a prefix of what the
/// whole text yields.
pub proof fn lemma_yielded_prefix(text: Seq<char>, k: int, index: int, n: int)
    requires
        0 <= k <= text.len(),
    ensures
        anchor_hrefs(text.subrange(0, k), index, n).len() <= anchor_hrefs(text, index, n).len(),
        anchor_hrefs(text, index, n).subrange(0, anchor_hrefs(text.subrange(0, k), index, n).len() as int)
            == anchor_hrefs(text.subrange(0, k), index, n),
{
    lemma_closed_anchors_prefix(text, k);
    let a = closed_anchors(text);
    let b = closed_anchors(text.subrange(0, k));
    lemma_partition_prefix(a, b, index, n);
}

fn is_anchor_tag(t: &Vec<char>) -> (r: bool)
    ensures
        r == is_anchor_name(t@),
{
    t.len() == 1 && t[0] == 'a'
}

fn is_href_attr(t: &Vec<char>) -> (r: bool)
    ensures
        r == is_href_name(t@),
{
    let r = t.len() == 4 && t[0] == 'h' && t[1] == 'r' && t[2] == 'e' && t[3] == 'f';
    proof {
        if r {
            assert(t@ =~= seq!['h', 'r', 'e', 'f']);
        }
    }
    r
}

fn is_anchor_closing_tag(t: &Vec<char>) -> (r: bool)
    ensures
        r == is_anchor_closing_name(t@),
{
    let n = t.len();
    if n < 2 {
        return false;
    }
    let mut i: usize = 0;
    proof {
        assert(t@.subrange(0, n as int) =~= t@);
    }
    while i + 2 < n
        invariant
            n == t@.len(),
            n >= 2,
            i + 2 <= n,
            forall|j: int| 0 <= j < i ==> t@[j] == '/',
            is_anchor_closing_name(t@) == is_anchor_closing_name(t@.subrange(i as int, n as int)),
        decreases n - i,
    {
        if t[i] != '/' {
            proof {
                assert(t@.subrange(i as int, n as int)[0] == t@[i as int]);
            }
            return false;
        }
        proof {
            assert(t@.subrange(i as int, n as int).drop_first() =~= t@.subrange(
                i + 1,
                n as int,
            ));
        }
        i = i + 1;
    }
    proof {
        let s = t@.subrange(i as int, n as int);
        assert(s.len() == 2);
        assert(s[0] == t@[i as int] && s[1] == t@[i + 1]);
    }
    t[i] == '/' && t[i + 1] == 'a'
}

/// Lazily yields the hrefs of the closed anchors whose ordinal is `index`
/// modulo `max_index`, scanning the text once.
pub struct AnchorHrefIterator {
    html: Vec<char>,
    pos: usize,
    index: usize,
    max_index: usize,
    anchor_tag_counter: usize,
    in_tag: bool,
    in_anchor_tag_text: bool,
    has_tag_name: bool,
    tag_name: Vec<char>,
    current_attr: Vec<char>,
    current_value: Vec<char>,
    is_in_href: bool,
    is_in_value: bool,
    quote_char: Option<char>,
    pending_href: Option<Vec<char>>,
}

impl AnchorHrefIterator {
    pub closed spec fn text(&self) -> Seq<char> {
        self.html@
    }

    pub closed spec fn position(&self) -> int {
        self.pos as int
    }

    pub closed spec fn partition_index(&self) -> int {
        self.index as int
    }

    pub closed spec fn partition_count(&self) -> int {
        self.max_index as int
    }

    /// What the iterator has yielded so far.
    pub open spec fn yielded(&self) -> Seq<Seq<char>> {
        anchor_hrefs(
            self.text().subrange(0, self.position()),
            self.partition_index(),
            self.partition_count(),
        )
    }

    /// What the iterator yields over its whole run.
    pub open spec fn all_hrefs(&self) -> Seq<Seq<char>> {
        anchor_hrefs(self.text(), self.partition_index(), self.partition_count())
    }

    pub closed spec fn state_view(&self) -> ScanState {
        ScanState {
            in_tag: self.in_tag,
            in_anchor_tag_text: self.in_anchor_tag_text,
            has_tag_name: self.has_tag_name,
            tag_name: self.tag_name@,
            current_attr: self.current_attr@,
            current_value: self.current_value@,
            is_in_href: self.is_in_href,
            is_in_value: self.is_in_value,
            quote_char: self.quote_char,
            pending_href: match self.pending_href {
                Some(v) => Some(v@),
                None => None,
            },
        }
    }

    pub closed spec fn wf(&self) -> bool {
        &&& self.max_index > 0
        &&& self.pos <= self.html@.len()
        &&& self.state_view() == scan(self.html@.subrange(0, self.pos as int)).0
        &&& self.anchor_tag_counter == closed_anchors(self.html@.subrange(0, self.pos as int)).len()
    }

    pub fn new(html: &str, index: usize, max_index: usize) -> (r: Self)
        requires
            max_index > 0,
        ensures
            r.wf(),
            r.text() == html@,
            r.position() == 0,
            r.position() <= r.text().len(),
            r.partition_index() == index,
            r.partition_count() == max_index,
            r.yielded() == Seq::<Seq<char>>::empty(),
    {
        let r = AnchorHrefIterator {
            html: chars_of(html),
            pos: 0,
            index,
            max_index,
            anchor_tag_counter: 0,
            in_tag: false,
            in_anchor_tag_text: false,
            has_tag_name: false,
            tag_name: Vec::new(),
            current_attr: Vec::new(),
            current_value: Vec::new(),
            is_in_href: false,
            is_in_value: false,
            quote_char: None,
            pending_href: None,
        };
        proof {
            assert(r.html@.subrange(0, 0) =~= Seq::<char>::empty());
            assert(r.state_view() =~= initial_scan_state());
        }
        r
    }

    /// Reads one character; returns the href to yield, if this character
    /// closes an anchor claimed by this partition.
    fn step(&mut self) -> (r: Option<String>)
        requires
            old(self).wf(),
            old(self).position() < old(self).text().len(),
        ensures
            final(self).wf(),
            final(self).text() == old(self).text(),
            final(self).partition_index() == old(self).partition_index(),
            final(self).partition_count() == old(self).partition_count(),
            final(self).position() == old(self).position() + 1,
            match r {
                Some(h) => final(self).yielded() == old(self).yielded().push(h@),
                None => final(self).yielded() == old(self).yielded(),
            },
    {
        let ghost prefix = self.html@.subrange(0, self.pos as int);
        let ghost next_prefix = self.html@.subrange(0, self.pos + 1);
        let ghost old_state = self.state_view();
        proof {
            assert(next_prefix.drop_last() =~= prefix);
            assert(next_prefix.last() == self.html@[self.pos as int]);
            lemma_closed_anchors_len(prefix);
        }
        let len = self.html.len();
        let c = self.html[self.pos];
        self.pos = self.pos + 1;
        let mut out: Option<String> = None;
        if c == '<' {
            self.in_tag = true;
            self.tag_name = Vec::new();
            self.has_tag_name = false;
            self.current_attr = Vec::new();
            self.current_value = Vec::new();
            self.is_in_href = false;
            self.is_in_value = false;
            self.quote_char = None;
        } else if !self.in_tag {
        } else if c == '>' {
            self.in_tag = false;
            if is_anchor_tag(&self.tag_name) {
                self.in_anchor_tag_text = true;
            } else if is_anchor_closing_tag(&self.tag_name) && self.in_anchor_tag_text {
                self.in_anchor_tag_text = false;
                let pending = self.pending_href.take();
                if self.anchor_tag_counter % self.max_index == self.index {
                    if let Some(h) = pending {
                        out = Some(string_from_chars(&h));
                    }
                }
                self.anchor_tag_counter = self.anchor_tag_counter + 1;
            }
        } else if !self.has_tag_name {
            if is_whitespace(c) {
                if self.tag_name.len() > 0 {
                    self.has_tag_name = true;
                }
            } else {
                self.tag_name.push(c);
            }
        } else if !is_anchor_tag(&self.tag_name) {
        } else if !self.is_in_value {
            if is_whitespace(c) {
            } else if c == '=' {
                self.is_in_value = true;
                self.current_value = Vec::new();
                self.quote_char = None;
                if is_href_attr(&self.current_attr) {
                    self.is_in_href = true;
                }
            } else if c != '/' {
                self.current_attr.push(c);
            }
        } else if self.quote_char.is_none() {
            if c == '"' || c == '\'' {
                self.quote_char = Some(c);
            }
        } else if Some(c) == self.quote_char {
            if self.is_in_href {
                self.pending_href = Some(self.current_value.clone());
            }
            self.is_in_value = false;
            self.is_in_href = false;
            self.current_attr = Vec::new();
            self.current_value = Vec::new();
            self.quote_char = None;
        } else {
            self.current_value.push(c);
        }
        proof {
            let st = scan_step(old_state, c);
            assert(self.state_view() =~= st.0);
            let prev = closed_anchors(prefix);
            if let Some(h) = st.1 {
                assert(closed_anchors(next_prefix) == prev.push(h));
                assert(prev.push(h).drop_last() =~= prev);
            } else {
                assert(closed_anchors(next_prefix) == prev);
            }
        }
        out
    }

    /// The next href of this partition, or `None` once the text is consumed.
    pub fn next(&mut self) -> (r: Option<String>)
        requires
            old(self).wf(),
        ensures
            final(self).wf(),
            final(self).text() == old(self).text(),
            final(self).partition_index() == old(self).partition_index(),
            final(self).partition_count() == old(self).partition_count(),
            final(self).position() >= old(self).position(),
            final(self).position() <= final(self).text().len(),
            old(self).position() == old(self).text().len() ==> r is None,
            final(self).yielded().len() <= final(self).all_hrefs().len(),
            final(self).all_hrefs().subrange(0, final(self).yielded().len() as int) == final(self).yielded(),
            match r {
                Some(h) => final(self).yielded() == old(self).yielded().push(h@)
                    && final(self).position() > old(self).position(),
                None => final(self).position() == final(self).text().len()
                    && final(self).yielded() == old(self).yielded(),
            },
    {
        while self.pos < self.html.len()
            invariant
                self.wf(),
                self.text() == old(self).text(),
                self.partition_index() == old(self).partition_index(),
                self.partition_count() == old(self).partition_count(),
                self.yielded() == old(self).yielded(),
                self.position() >= old(self).position(),
            decreases self.html@.len() - self.pos,
        {
            let r = self.step();
            if r.is_some() {
                proof {
                    lemma_yielded_prefix(self.text(), self.position(), self.partition_index(), self.partition_count());
                }
                return r;
            }
        }
        proof {
            lemma_yielded_prefix(self.text(), self.position(), self.partition_index(), self.partition_count());
        }
        None
    }
}

/// The hrefs of the closed anchors of `html` whose ordinal is `index`
/// modulo `max_index`, in document order.
pub fn find_anchors(html: &str, index: usize, max_index: usize) -> (r: Vec<String>)
    requires
        max_index > 0,
    ensures
        r@.map_values(|s: String| s@) == anchor_hrefs(html@, index as int, max_index as int),
{
    let mut it = AnchorHrefIterator::new(html, index, max_index);
    let mut out: Vec<String> = Vec::new();
    loop
        invariant
            it.wf(),
            it.text() == html@,
            it.partition_index() == index,
            it.partition_count() == max_index,
            out@.map_values(|s: String| s@) == it.yielded(),
        decreases it.text().len() - it.position(),
    {
        let ghost before = it.position();
        match it.next() {
            Some(h) => {
                out.push(h);
                proof {
                    assert(out@.map_values(|s: String| s@) =~= it.yielded());
                }
            },
            None => {
                proof {
                    assert(html@.subrange(0, html@.len() as int) =~= html@);
                }
                return out;
            },
        }
    }
}

} // verus!
