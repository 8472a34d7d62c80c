//! Discovering every prefix of a bucket: the fast object scan, and when it
//! fails, a breadth-first crawl of the prefix tree with a scan of the
//! objects under each parent whose listing fails.

use vstd::prelude::*;
use std::collections::VecDeque;
use crate::ordered::{lemma_sorted_members_len, strictly_sorted, PrefixSet};
use crate::paths::{normalize_prefix, normalized_prefix};
use crate::scan::{
    ObjectScanResult, MAX_OBJECT_SCAN_PAGES, MAX_PREFIX_SCAN_PARENTS, MAX_PREFIX_TOTAL_ITEMS,
};

verus! {

/// The counts reported with all the prefixes of a bucket.
pub struct AllPrefixesStats {
    pub visited: usize,
    pub fallback_hits: usize,
    pub failed_parents: Vec<String>,
    pub truncated: bool,
}

/// All the prefixes of a bucket, in ascending order, with the counts.
pub struct AllPrefixes {
    pub prefixes: Vec<String>,
    pub stats: AllPrefixesStats,
}

/// The answer when the fast object scan succeeded: its prefixes, its page
/// count as the visited count, its fallback pages, no failed parents.
pub fn all_prefixes_from_scan(scan: ObjectScanResult) -> (r: AllPrefixes)
    ensures
        r.prefixes.deep_view() == scan.prefixes.deep_view(),
        r.stats.visited == scan.visited_pages,
        r.stats.fallback_hits == scan.fallback_hits,
        r.stats.failed_parents@.len() == 0,
        r.stats.truncated == scan.truncated,
{
    AllPrefixes {
        prefixes: scan.prefixes,
        stats: AllPrefixesStats {
            visited: scan.visited_pages,
            fallback_hits: scan.fallback_hits,
            failed_parents: Vec::new(),
            truncated: scan.truncated,
        },
    }
}

/// The failure of both listing channels, as one message.
pub open spec fn channel_failure_text(primary: Seq<char>, fallback: Seq<char>) -> Seq<char> {
    "主通道失败: "@ + primary + "; 备用通道失败: "@ + fallback
}

/// Reports that the primary and the fallback channel both failed.
pub fn channel_failure_message(primary: &str, fallback: &str) -> (r: String)
    ensures
        r@ == channel_failure_text(primary@, fallback@),
{
    let mut m = "主通道失败: ".to_owned();
    m.append(primary);
    m.append("; 备用通道失败: ");
    m.append(fallback);
    m
}

/// How a parent prefix is named in failure reports: `<root>` for the root.
pub open spec fn parent_marker(parent: Seq<char>) -> Seq<char> {
    if parent.len() == 0 {
        "<root>"@
    } else {
        parent
    }
}

/// The report of a parent whose listing and object scan both failed.
pub open spec fn failed_parent_text(parent: Seq<char>, listing: Seq<char>, scan: Seq<char>) -> Seq<
    char,
> {
    parent_marker(parent) + " (目录枚举失败: "@ + listing + "; 对象扫描失败: "@ + scan + ")"@
}

/// The report of the failed fast scan, listed first among the failures.
pub open spec fn fast_scan_failure_text(error: Seq<char>) -> Seq<char> {
    "<root> (快速扫描失败: "@ + error + ")"@
}

/// The sets a crawl keeps: the prefixes found, those ever queued, the
/// queue, and whether a limit stopped the crawl.
pub struct CrawlSets {
    pub discovered: Set<Seq<char>>,
    pub queued: Set<Seq<char>>,
    pub queue: Seq<Seq<char>>,
    pub truncated: bool,
}

/// One listed child: normalised; when new it is found, and queued unless it
/// was queued before; reaching the limit stops the crawl.
pub open spec fn crawl_child(m: CrawlSets, child: Seq<char>) -> CrawlSets {
    let n = normalized_prefix(child);
    if n.len() == 0 {
        m
    } else {
        let fresh = !m.discovered.contains(n);
        let enqueue = fresh && !m.queued.contains(n);
        let discovered = m.discovered.insert(n);
        CrawlSets {
            discovered,
            queued: if enqueue {
                m.queued.insert(n)
            } else {
                m.queued
            },
            queue: if enqueue {
                m.queue.push(n)
            } else {
                m.queue
            },
            truncated: discovered.len() >= MAX_PREFIX_TOTAL_ITEMS,
        }
    }
}

/// The children of one listing taken in order, until the limit stops it.
pub open spec fn crawl_children(m: CrawlSets, children: Seq<Seq<char>>) -> CrawlSets
    decreases children.len(),
{
    if children.len() == 0 {
        m
    } else {
        let before = crawl_children(m, children.drop_last());
        if before.truncated {
            before
        } else {
            crawl_child(before, children.last())
        }
    }
}

/// One prefix found by the object scan of a parent: normalised and found
/// (never queued); reaching the limit stops the crawl.
pub open spec fn crawl_scanned(m: CrawlSets, prefix: Seq<char>) -> CrawlSets {
    let n = normalized_prefix(prefix);
    if n.len() == 0 {
        m
    } else {
        let discovered = m.discovered.insert(n);
        CrawlSets {
            discovered,
            queued: m.queued,
            queue: m.queue,
            truncated: discovered.len() >= MAX_PREFIX_TOTAL_ITEMS,
        }
    }
}

/// The prefixes of one object scan taken in order, until the limit stops it.
pub open spec fn crawl_scan_prefixes(m: CrawlSets, prefixes: Seq<Seq<char>>) -> CrawlSets
    decreases prefixes.len(),
{
    if prefixes.len() == 0 {
        m
    } else {
        let before = crawl_scan_prefixes(m, prefixes.drop_last());
        if before.truncated {
            before
        } else {
            crawl_scanned(before, prefixes.last())
        }
    }
}

pub proof fn lemma_crawl_children_stops(m: CrawlSets, cs: Seq<Seq<char>>, i: int)
    requires
        0 <= i <= cs.len(),
        crawl_children(m, cs.take(i)).truncated,
    ensures
        crawl_children(m, cs) == crawl_children(m, cs.take(i)),
    decreases cs.len() - i,
{
    if i < cs.len() {
        assert(cs.take(i + 1).drop_last() =~= cs.take(i));
        lemma_crawl_children_stops(m, cs, i + 1);
    } else {
        assert(cs.take(i) =~= cs);
    }
}

pub proof fn lemma_crawl_scan_stops(m: CrawlSets, ps: Seq<Seq<char>>, i: int)
    requires
        0 <= i <= ps.len(),
        crawl_scan_prefixes(m, ps.take(i)).truncated,
    ensures
        crawl_scan_prefixes(m, ps) == crawl_scan_prefixes(m, ps.take(i)),
    decreases ps.len() - i,
{
    if i < ps.len() {
        assert(ps.take(i + 1).drop_last() =~= ps.take(i));
        lemma_crawl_scan_stops(m, ps, i + 1);
    } else {
        assert(ps.take(i) =~= ps);
    }
}

/// Every parent handed out so far and every queued one, each once, are
/// exactly the prefixes ever queued.
pub open spec fn parents_accounted(listed: Seq<Seq<char>>, m: CrawlSets) -> bool {
    &&& (listed + m.queue).no_duplicates()
    &&& forall|i: int|
        0 <= i < (listed + m.queue).len() ==> m.queued.contains(#[trigger] (listed + m.queue)[i])
    &&& forall|q: Seq<char>| #[trigger] m.queued.contains(q) ==> (listed + m.queue).contains(q)
}

/// The root is queued, every other queued prefix was found, and no found
/// prefix is empty.
pub open spec fn queued_were_found(m: CrawlSets) -> bool {
    &&& m.queued.contains(Seq::<char>::empty())
    &&& forall|q: Seq<char>| #[trigger] m.queued.contains(q) ==> q.len() == 0 || m.discovered.contains(q)
    &&& forall|p: Seq<char>| #[trigger] m.discovered.contains(p) ==> p.len() > 0
}

proof fn lemma_crawl_child_accounted(listed: Seq<Seq<char>>, m: CrawlSets, child: Seq<char>)
    requires
        parents_accounted(listed, m),
        queued_were_found(m),
    ensures
        parents_accounted(listed, crawl_child(m, child)),
        queued_were_found(crawl_child(m, child)),
{
    let n = normalized_prefix(child);
    let r = crawl_child(m, child);
    if n.len() > 0 && !m.discovered.contains(n) && !m.queued.contains(n) {
        let l0 = listed + m.queue;
        let l1 = listed + r.queue;
        assert(l1 =~= l0.push(n));
        assert(!l0.contains(n)) by {
            if l0.contains(n) {
                let i = choose|i: int| 0 <= i < l0.len() && l0[i] == n;
                assert(m.queued.contains(l0[i]));
            }
        }
        assert forall|i: int, j: int| 0 <= i < l1.len() && 0 <= j < l1.len() && i != j implies l1[i]
            != l1[j] by {
            if i < l0.len() && j < l0.len() {
                assert(l1[i] == l0[i] && l1[j] == l0[j]);
            } else if i < l0.len() {
                assert(l1[i] == l0[i]);
            } else {
                assert(l1[j] == l0[j]);
            }
        }
        assert forall|i: int| 0 <= i < l1.len() implies r.queued.contains(#[trigger] l1[i]) by {
            if i < l0.len() {
                assert(l1[i] == l0[i]);
                assert(m.queued.contains(l0[i]));
            }
        }
        assert forall|q: Seq<char>| #[trigger] r.queued.contains(q) implies l1.contains(q) by {
            if q == n {
                assert(l1[l0.len() as int] == n);
            } else {
                assert(l0.contains(q));
                let i = choose|i: int| 0 <= i < l0.len() && l0[i] == q;
                assert(l1[i] == q);
            }
        }
    }
}

proof fn lemma_crawl_children_accounted(listed: Seq<Seq<char>>, m: CrawlSets, cs: Seq<Seq<char>>)
    requires
        parents_accounted(listed, m),
        queued_were_found(m),
    ensures
        parents_accounted(listed, crawl_children(m, cs)),
        queued_were_found(crawl_children(m, cs)),
    decreases cs.len(),
{
    if cs.len() > 0 {
        lemma_crawl_children_accounted(listed, m, cs.drop_last());
        let before = crawl_children(m, cs.drop_last());
        if !before.truncated {
            lemma_crawl_child_accounted(listed, before, cs.last());
        }
    }
}

proof fn lemma_crawl_scan_accounted(m: CrawlSets, ps: Seq<Seq<char>>)
    requires
        queued_were_found(m),
    ensures
        queued_were_found(crawl_scan_prefixes(m, ps)),
        crawl_scan_prefixes(m, ps).queued == m.queued,
        crawl_scan_prefixes(m, ps).queue == m.queue,
    decreases ps.len(),
{
    if ps.len() > 0 {
        lemma_crawl_scan_accounted(m, ps.drop_last());
    }
}

/// The breadth-first crawl of the prefix tree of a bucket.
pub struct PrefixCrawl {
    discovered: PrefixSet,
    queued: PrefixSet,
    queue: VecDeque<String>,
    failed_parents: Vec<String>,
    fallback_hits: usize,
    truncated: bool,
    visited_parents: usize,
    fast_scan_error: String,
    current: Option<String>,
    finished: bool,
    listed: Ghost<Seq<Seq<char>>>,
}

impl PrefixCrawl {
    /// The parents handed out for listing, in order.
    pub closed spec fn listed(&self) -> Seq<Seq<char>> {
        self.listed@
    }

    /// The sets of the crawl.
    pub closed spec fn sets(&self) -> CrawlSets {
        CrawlSets {
            discovered: self.discovered.members(),
            queued: self.queued.members(),
            queue: self.queue.deep_view(),
            truncated: self.truncated,
        }
    }

    /// How many prefixes were found.
    pub closed spec fn found_count(&self) -> nat {
        self.discovered@.len()
    }

    /// The reports of the parents that could not be read, in order.
    pub closed spec fn failed(&self) -> Seq<Seq<char>> {
        self.failed_parents.deep_view()
    }

    pub closed spec fn fallback_hits(&self) -> nat {
        self.fallback_hits as nat
    }

    /// How many parents were taken from the queue and listed.
    pub closed spec fn visited(&self) -> nat {
        self.visited_parents as nat
    }

    /// Why the fast scan failed.
    pub closed spec fn fast_error(&self) -> Seq<char> {
        self.fast_scan_error@
    }

    /// The parent being listed, between `next_parent` and its outcome.
    pub closed spec fn current(&self) -> Option<Seq<char>> {
        match self.current {
            Some(p) => Some(p@),
            None => None,
        }
    }

    /// Whether the crawl is over.
    pub closed spec fn is_finished(&self) -> bool {
        self.finished
    }

    /// The bookkeeping that every step keeps.
    pub open spec fn wf(&self) -> bool {
        &&& self.sets().discovered.finite()
        &&& self.sets().discovered.len() == self.found_count()
        &&& self.visited() <= MAX_PREFIX_SCAN_PARENTS
        &&& self.fallback_hits() <= self.visited() * (MAX_OBJECT_SCAN_PAGES + 1)
        &&& self.sets().truncated ==> self.is_finished()
        &&& self.current() is Some ==> {
            &&& !self.is_finished()
            &&& self.found_count() < MAX_PREFIX_TOTAL_ITEMS
            &&& self.visited() >= 1
            &&& self.fallback_hits() <= (self.visited() - 1) * (MAX_OBJECT_SCAN_PAGES + 1)
        }
        &&& self.listed().len() == self.visited()
        &&& self.sets().queued.finite()
        &&& queued_were_found(self.sets())
        &&& (self.listed() + self.sets().queue).no_duplicates()
        &&& forall|i: int|
            0 <= i < (self.listed() + self.sets().queue).len() ==> self.sets().queued.contains(
                #[trigger] (self.listed() + self.sets().queue)[i],
            )
        &&& !self.sets().truncated ==> parents_accounted(self.listed(), self.sets())
        &&& self.is_finished() && !self.sets().truncated ==> self.sets().queue.len() == 0
    }

    /// A crawl from the root, after the fast scan failed with `fast_scan_error`.
    pub fn new(fast_scan_error: String) -> (r: PrefixCrawl)
        ensures
            r.wf(),
            r.sets().discovered == Set::<Seq<char>>::empty(),
            r.sets().queued == Set::<Seq<char>>::empty().insert(Seq::<char>::empty()),
            r.sets().queue == seq![Seq::<char>::empty()],
            !r.sets().truncated,
            r.failed() == Seq::<Seq<char>>::empty(),
            r.fallback_hits() == 0,
            r.visited() == 0,
            r.fast_error() == fast_scan_error@,
            r.current() is None,
            !r.is_finished(),
            r.listed() == Seq::<Seq<char>>::empty(),
    {
        let discovered = PrefixSet::new();
        let mut queued = PrefixSet::new();
        queued.insert(String::new());
        let mut queue: VecDeque<String> = VecDeque::new();
        queue.push_back(String::new());
        let r = PrefixCrawl {
            discovered,
            queued,
            queue,
            failed_parents: Vec::new(),
            fallback_hits: 0,
            truncated: false,
            visited_parents: 0,
            fast_scan_error,
            current: None,
            finished: false,
            listed: Ghost(Seq::empty()),
        };
        proof {
            lemma_sorted_members_len(r.discovered@);
            lemma_sorted_members_len(r.queued@);
            let e = Seq::<char>::empty();
            let l = r.listed@ + r.queue.deep_view();
            assert(r.queue.deep_view() =~= seq![e]);
            assert(l =~= seq![e]);
            assert(l.contains(e)) by {
                assert(l[0] == e);
            }
            assert(r.discovered.members() =~= Set::<Seq<char>>::empty());
            assert(r.queued.members() =~= Set::<Seq<char>>::empty().insert(Seq::<char>::empty()));
            assert(r.queue.deep_view() =~= seq![Seq::<char>::empty()]);
            assert(r.failed_parents.deep_view() =~= Seq::<Seq<char>>::empty());
        }
        r
    }

    /// Whether the crawl is over.
    pub fn finished(&self) -> (r: bool)
        ensures
            r == self.is_finished(),
    {
        self.finished
    }

    /// The next parent to list, taken from the front of the queue; `None`
    /// when the queue is empty, or when the parent or prefix limit is
    /// reached (then the crawl ends truncated).
    pub fn next_parent(&mut self) -> (r: Option<String>)
        requires
            old(self).wf(),
            old(self).current() is None,
        ensures
            final(self).wf(),
            final(self).failed() == old(self).failed(),
            final(self).fallback_hits() == old(self).fallback_hits(),
            final(self).fast_error() == old(self).fast_error(),
            final(self).sets().discovered == old(self).sets().discovered,
            final(self).sets().queued == old(self).sets().queued,
            old(self).is_finished() ==> r is None && final(self).sets() == old(self).sets()
                && final(self).visited() == old(self).visited() && final(self).is_finished(),
            !old(self).is_finished() && old(self).sets().queue.len() == 0 ==> r is None
                && final(self).is_finished() && final(self).sets() == old(self).sets()
                && final(self).visited() == old(self).visited(),
            !old(self).is_finished() && old(self).sets().queue.len() > 0 ==> {
                &&& final(self).sets().queue == old(self).sets().queue.drop_first()
                &&& if old(self).visited() >= MAX_PREFIX_SCAN_PARENTS || old(self).found_count()
                    >= MAX_PREFIX_TOTAL_ITEMS {
                    &&& r is None
                    &&& final(self).sets().truncated
                    &&& final(self).is_finished()
                    &&& final(self).visited() == old(self).visited()
                    &&& final(self).listed() == old(self).listed()
                } else {
                    &&& r is Some
                    &&& r->0@ == old(self).sets().queue[0]
                    &&& final(self).current() == Some(old(self).sets().queue[0])
                    &&& final(self).visited() == old(self).visited() + 1
                    &&& final(self).sets().truncated == old(self).sets().truncated
                    &&& final(self).listed() == old(self).listed().push(old(self).sets().queue[0])
                }
            },
            old(self).sets().queue.len() == 0 || old(self).is_finished() ==> final(self).listed()
                == old(self).listed(),
    {
        if self.finished {
            return None;
        }
        let ghost q0 = self.queue.deep_view();
        match self.queue.pop_front() {
            None => {
                self.finished = true;
                assert(self.queue.deep_view() =~= q0);
                None
            },
            Some(parent) => {
                assert(self.queue.deep_view() =~= q0.drop_first());
                let ghost l0 = self.listed@ + q0;
                if self.visited_parents >= MAX_PREFIX_SCAN_PARENTS || self.discovered.len()
                    >= MAX_PREFIX_TOTAL_ITEMS {
                    self.truncated = true;
                    self.finished = true;
                    proof {
                        let l1 = self.listed@ + self.queue.deep_view();
                        let k = self.listed@.len() as int;
                        assert forall|i: int| 0 <= i < l1.len() implies #[trigger] l1[i] == if i < k {
                            l0[i]
                        } else {
                            l0[i + 1]
                        } by {}
                        assert forall|i: int| 0 <= i < l1.len() implies self.sets().queued.contains(
                            #[trigger] l1[i],
                        ) by {
                            if i < k {
                                assert(l1[i] == l0[i]);
                            } else {
                                assert(l1[i] == l0[i + 1]);
                            }
                        }
                        assert forall|i: int, j: int|
                            0 <= i < l1.len() && 0 <= j < l1.len() && i != j implies l1[i] != l1[j] by {
                            let i2 = if i < k { i } else { i + 1 };
                            let j2 = if j < k { j } else { j + 1 };
                            assert(l1[i] == l0[i2] && l1[j] == l0[j2]);
                        }
                    }
                    return None;
                }
                self.visited_parents = self.visited_parents + 1;
                let r = parent.clone();
                self.listed = Ghost(self.listed@.push(parent@));
                self.current = Some(parent);
                proof {
                    assert(self.listed@ + self.queue.deep_view() =~= l0);
                }
                Some(r)
            },
        }
    }

    /// Takes in the children listed for the current parent: each is
    /// normalised, found, and queued when new, until the limit stops the
    /// crawl; `used_fallback` counts a fallback listing.
    pub fn absorb_children(&mut self, children: &Vec<String>, used_fallback: bool)
        requires
            old(self).wf(),
            old(self).current() is Some,
        ensures
            final(self).wf(),
            final(self).current() is None,
            final(self).sets() == crawl_children(old(self).sets(), children.deep_view()),
            final(self).listed() == old(self).listed(),
            final(self).is_finished() == final(self).sets().truncated,
            final(self).fallback_hits() == old(self).fallback_hits() + if used_fallback {
                1int
            } else {
                0int
            },
            final(self).visited() == old(self).visited(),
            final(self).failed() == old(self).failed(),
            final(self).fast_error() == old(self).fast_error(),
    {
        let ghost m0 = self.sets();
        if used_fallback {
            self.fallback_hits = self.fallback_hits + 1;
        }
        let mut discovered = PrefixSet::new();
        std::mem::swap(&mut discovered, &mut self.discovered);
        let mut queued = PrefixSet::new();
        std::mem::swap(&mut queued, &mut self.queued);
        let mut queue: VecDeque<String> = VecDeque::new();
        std::mem::swap(&mut queue, &mut self.queue);
        let mut truncated = false;
        let n = children.len();
        let mut i: usize = 0;
        proof {
            assert(children.deep_view().take(0) =~= Seq::<Seq<char>>::empty());
            assert(children.deep_view().take(n as int) =~= children.deep_view());
        }
        while i < n
            invariant_except_break
                n == children.len(),
                i <= n,
                children.deep_view().take(n as int) == children.deep_view(),
                !truncated,
                discovered@.len() < MAX_PREFIX_TOTAL_ITEMS,
                (CrawlSets {
                    discovered: discovered.members(),
                    queued: queued.members(),
                    queue: queue.deep_view(),
                    truncated,
                }) == crawl_children(m0, children.deep_view().take(i as int)),
            invariant
                discovered.members().finite(),
                discovered.members().len() == discovered@.len(),
            ensures
                (CrawlSets {
                    discovered: discovered.members(),
                    queued: queued.members(),
                    queue: queue.deep_view(),
                    truncated,
                }) == crawl_children(m0, children.deep_view()),
                truncated ==> discovered@.len() >= MAX_PREFIX_TOTAL_ITEMS,
                !truncated ==> discovered@.len() < MAX_PREFIX_TOTAL_ITEMS,
            decreases n - i,
        {
            let ghost done = children.deep_view().take(i + 1);
            assert(done.drop_last() =~= children.deep_view().take(i as int));
            assert(done.last() == children[i as int]@);
            let ghost before = CrawlSets {
                discovered: discovered.members(),
                queued: queued.members(),
                queue: queue.deep_view(),
                truncated,
            };
            let normalized = normalize_prefix(children[i].as_str());
            if normalized.as_str().is_empty() {
                i = i + 1;
                continue;
            }
            let ghost nv = normalized@;
            let ghost q0 = queue.deep_view();
            if discovered.insert(normalized.clone()) {
                if queued.insert(normalized.clone()) {
                    queue.push_back(normalized);
                    assert(queue.deep_view() =~= q0.push(nv));
                }
            }
            proof {
                lemma_sorted_members_len(discovered@);
            }
            let ghost after = crawl_child(before, children[i as int]@);
            assert(discovered.members() == after.discovered);
            assert(queued.members() == after.queued);
            assert(queue.deep_view() =~= after.queue);
            if discovered.len() >= MAX_PREFIX_TOTAL_ITEMS {
                truncated = true;
                proof {
                    lemma_crawl_children_stops(m0, children.deep_view(), i + 1);
                }
                break;
            }
            i = i + 1;
        }
        self.discovered = discovered;
        self.queued = queued;
        self.queue = queue;
        self.truncated = truncated;
        self.current = None;
        proof {
            lemma_crawl_children_accounted(self.listed@, m0, children.deep_view());
            use_type_invariant(&self.queued);
            lemma_sorted_members_len(self.queued@);
        }
        if truncated {
            self.finished = true;
        }
    }

    /// Takes in the prefixes that an object scan found under the current
    /// parent (after its listing failed): each is normalised and found,
    /// never queued, until the limit stops the crawl. The scan counts as one
    /// fallback, plus its own fallback pages.
    pub fn absorb_scan(&mut self, scan: &ObjectScanResult)
        requires
            old(self).wf(),
            old(self).current() is Some,
            scan.fallback_hits <= MAX_OBJECT_SCAN_PAGES,
        ensures
            final(self).wf(),
            final(self).current() is None,
            final(self).sets() == crawl_scan_prefixes(old(self).sets(), scan.prefixes.deep_view()),
            final(self).listed() == old(self).listed(),
            final(self).is_finished() == final(self).sets().truncated,
            final(self).fallback_hits() == old(self).fallback_hits() + 1 + scan.fallback_hits,
            final(self).visited() == old(self).visited(),
            final(self).failed() == old(self).failed(),
            final(self).fast_error() == old(self).fast_error(),
    {
        let ghost m0 = self.sets();
        self.fallback_hits = self.fallback_hits + 1 + scan.fallback_hits;
        let mut discovered = PrefixSet::new();
        std::mem::swap(&mut discovered, &mut self.discovered);
        let mut truncated = false;
        let ghost queued = m0.queued;
        let ghost queue = m0.queue;
        let prefixes = &scan.prefixes;
        let n = prefixes.len();
        let mut i: usize = 0;
        proof {
            assert(prefixes.deep_view().take(0) =~= Seq::<Seq<char>>::empty());
            assert(prefixes.deep_view().take(n as int) =~= prefixes.deep_view());
        }
        while i < n
            invariant_except_break
                n == prefixes.len(),
                i <= n,
                prefixes.deep_view().take(n as int) == prefixes.deep_view(),
                !truncated,
                discovered@.len() < MAX_PREFIX_TOTAL_ITEMS,
                (CrawlSets { discovered: discovered.members(), queued, queue, truncated })
                    == crawl_scan_prefixes(m0, prefixes.deep_view().take(i as int)),
            invariant
                discovered.members().finite(),
                discovered.members().len() == discovered@.len(),
            ensures
                (CrawlSets { discovered: discovered.members(), queued, queue, truncated })
                    == crawl_scan_prefixes(m0, prefixes.deep_view()),
                truncated ==> discovered@.len() >= MAX_PREFIX_TOTAL_ITEMS,
                !truncated ==> discovered@.len() < MAX_PREFIX_TOTAL_ITEMS,
            decreases n - i,
        {
            let ghost done = prefixes.deep_view().take(i + 1);
            assert(done.drop_last() =~= prefixes.deep_view().take(i as int));
            assert(done.last() == prefixes[i as int]@);
            let ghost before = CrawlSets { discovered: discovered.members(), queued, queue, truncated };
            let normalized = normalize_prefix(prefixes[i].as_str());
            if normalized.as_str().is_empty() {
                i = i + 1;
                continue;
            }
            let ghost nv = normalized@;
            discovered.insert(normalized);
            proof {
                lemma_sorted_members_len(discovered@);
            }
            let ghost after = crawl_scanned(before, prefixes[i as int]@);
            assert(discovered.members() == after.discovered);
            if discovered.len() >= MAX_PREFIX_TOTAL_ITEMS {
                truncated = true;
                proof {
                    lemma_crawl_scan_stops(m0, prefixes.deep_view(), i + 1);
                }
                break;
            }
            i = i + 1;
        }
        self.discovered = discovered;
        self.truncated = truncated;
        self.current = None;
        proof {
            lemma_crawl_scan_accounted(m0, prefixes.deep_view());
            assert(self.sets().queued == m0.queued && self.sets().queue == m0.queue);
            assert(parents_accounted(self.listed@, m0));
        }
        if truncated {
            self.finished = true;
        }
    }

    /// Records that the current parent could be neither listed nor scanned.
    pub fn record_failure(&mut self, listing_error: &str, scan_error: &str)
        requires
            old(self).wf(),
            old(self).current() is Some,
        ensures
            final(self).wf(),
            final(self).current() is None,
            final(self).failed() == old(self).failed().push(
                failed_parent_text(old(self).current()->0, listing_error@, scan_error@),
            ),
            final(self).sets() == old(self).sets(),
            final(self).listed() == old(self).listed(),
            final(self).is_finished() == old(self).is_finished(),
            final(self).fallback_hits() == old(self).fallback_hits(),
            final(self).visited() == old(self).visited(),
            final(self).fast_error() == old(self).fast_error(),
    {
        let mut report = match &self.current {
            Some(parent) => if parent.as_str().is_empty() {
                "<root>".to_owned()
            } else {
                parent.clone()
            },
            None => String::new(),
        };
        report.append(" (目录枚举失败: ");
        report.append(listing_error);
        report.append("; 对象扫描失败: ");
        report.append(scan_error);
        report.append(")");
        let ghost before = self.failed_parents.deep_view();
        self.failed_parents.push(report);
        assert(self.failed_parents.deep_view() =~= before.push(
            failed_parent_text(old(self).current()->0, listing_error@, scan_error@),
        ));
        self.current = None;
    }

    /// The prefixes found, in ascending order, with the counts; the failure
    /// of the fast scan is reported first among the failed parents.
    pub fn finish(self) -> (r: AllPrefixes)
        requires
            self.wf(),
            self.is_finished(),
        ensures
            strictly_sorted(r.prefixes.deep_view()),
            r.prefixes.deep_view().to_set() == self.sets().discovered,
            r.stats.visited == self.visited(),
            r.stats.fallback_hits == self.fallback_hits(),
            r.stats.failed_parents.deep_view() == seq![fast_scan_failure_text(self.fast_error())]
                + self.failed(),
            r.stats.truncated == self.sets().truncated,
    {
        let mut failed_parents = self.failed_parents;
        let mut first = "<root> (快速扫描失败: ".to_owned();
        first.append(self.fast_scan_error.as_str());
        first.append(")");
        let ghost rest = failed_parents.deep_view();
        failed_parents.insert(0, first);
        assert(failed_parents.deep_view() =~= seq![fast_scan_failure_text(self.fast_scan_error@)]
            + rest);
        AllPrefixes {
            prefixes: self.discovered.into_sorted_vec(),
            stats: AllPrefixesStats {
                visited: self.visited_parents,
                fallback_hits: self.fallback_hits,
                failed_parents,
                truncated: self.truncated,
            },
        }
    }
}

/// Every found and every queued prefix is a non-empty prefix in normal form.
pub open spec fn crawl_normal(m: CrawlSets) -> bool {
    &&& forall|p: Seq<char>| #[trigger] m.discovered.contains(p) ==> p.len() > 0
        && normalized_prefix(p) == p
    &&& forall|i: int| 0 <= i < m.queue.len() ==> normalized_prefix(#[trigger] m.queue[i])
        == m.queue[i]
}

/// Listing children keeps every found and queued prefix in normal form.
pub proof fn law_crawl_children_normal(m: CrawlSets, children: Seq<Seq<char>>)
    requires
        crawl_normal(m),
    ensures
        crawl_normal(crawl_children(m, children)),
    decreases children.len(),
{
    if children.len() > 0 {
        law_crawl_children_normal(m, children.drop_last());
        let before = crawl_children(m, children.drop_last());
        crate::paths::law_normalize_prefix_idempotent(children.last());
        if !before.truncated {
            let after = crawl_child(before, children.last());
            assert forall|i: int| 0 <= i < after.queue.len() implies normalized_prefix(
                #[trigger] after.queue[i],
            ) == after.queue[i] by {
                if i < before.queue.len() {
                    assert(after.queue[i] == before.queue[i]);
                }
            }
        }
    }
}

/// Taking in scanned prefixes keeps every found prefix in normal form.
pub proof fn law_crawl_scan_normal(m: CrawlSets, prefixes: Seq<Seq<char>>)
    requires
        crawl_normal(m),
    ensures
        crawl_normal(crawl_scan_prefixes(m, prefixes)),
    decreases prefixes.len(),
{
    if prefixes.len() > 0 {
        law_crawl_scan_normal(m, prefixes.drop_last());
        crate::paths::law_normalize_prefix_idempotent(prefixes.last());
    }
}

/// The crawl lists each parent at most once. The parents handed out repeat
/// nothing and number `visited`; with those still queued they never
/// outnumber the found prefixes plus the root. A crawl that ended without
/// reaching a limit has listed every prefix it queued; when, besides, every
/// found prefix was queued (no object scan added one), it listed the root
/// and each found prefix exactly once.
pub proof fn law_crawl_lists_each_parent_once(c: PrefixCrawl)
    requires
        c.wf(),
    ensures
        c.listed().no_duplicates(),
        c.listed().len() == c.visited(),
        c.visited() + c.sets().queue.len() <= c.sets().discovered.len() + 1,
        c.is_finished() && !c.sets().truncated ==> c.sets().queue.len() == 0 && c.listed().to_set()
            == c.sets().queued,
        c.is_finished() && !c.sets().truncated && c.sets().discovered.subset_of(c.sets().queued)
            ==> c.visited() == c.sets().discovered.len() + 1,
{
    let m = c.sets();
    let listed = c.listed();
    let l = listed + m.queue;
    let e = Seq::<char>::empty();
    assert(listed.no_duplicates()) by {
        assert forall|i: int, j: int|
            0 <= i < listed.len() && 0 <= j < listed.len() && i != j implies listed[i] != listed[j] by {
            assert(l[i] == listed[i] && l[j] == listed[j]);
        }
    }
    l.unique_seq_to_set();
    assert(l.to_set().subset_of(m.queued)) by {
        assert forall|x: Seq<char>| l.to_set().contains(x) implies m.queued.contains(x) by {
            let i = choose|i: int| 0 <= i < l.len() && l[i] == x;
            assert(m.queued.contains(l[i]));
        }
    }
    vstd::set_lib::lemma_len_subset(l.to_set(), m.queued);
    let grown = m.discovered.insert(e);
    assert(!m.discovered.contains(e));
    assert(m.queued.subset_of(grown)) by {
        assert forall|q: Seq<char>| m.queued.contains(q) implies grown.contains(q) by {
            if q.len() == 0 {
                assert(q =~= e);
            }
        }
    }
    vstd::set_lib::lemma_len_subset(m.queued, grown);
    if c.is_finished() && !m.truncated {
        assert(l =~= listed);
        assert(listed.to_set() =~= m.queued) by {
            assert forall|x: Seq<char>| listed.to_set().contains(x) <==> m.queued.contains(x) by {
                if listed.to_set().contains(x) {
                    let i = choose|i: int| 0 <= i < listed.len() && listed[i] == x;
                    assert(m.queued.contains(l[i]));
                }
            }
        }
        if m.discovered.subset_of(m.queued) {
            assert(m.queued =~= grown);
        }
    }
}

} // verus!
