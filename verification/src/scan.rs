//! Discovering every prefix of a bucket by scanning object keys page by
//! page, within limits on pages, keys and prefixes.

use vstd::prelude::*;
use crate::listing::{object_page_query, object_page_request_query, query_view, QueryParam};
use crate::ordered::{lemma_sorted_members_len, strictly_sorted, PrefixSet};
use crate::paths::{collect_prefixes_from_key, key_prefixes};
use crate::text::{has_prefix, starts_with};

verus! {

/// The most prefixes gathered before a scan or crawl stops.
pub const MAX_PREFIX_TOTAL_ITEMS: usize = 300000;

/// The most parent prefixes a crawl lists before it stops.
pub const MAX_PREFIX_SCAN_PARENTS: usize = 30000;

/// The most pages an object scan requests.
pub const MAX_OBJECT_SCAN_PAGES: usize = 5000;

/// The most object keys an object scan reads.
pub const MAX_OBJECT_SCAN_KEYS: usize = 1000000;

/// Whether a key lies under the scanned parent (every key does under the root).
pub open spec fn in_scope(parent: Seq<char>, key: Seq<char>) -> bool {
    parent.len() == 0 || starts_with(key, parent)
}

/// The prefixes known after the keys of a page, in order: each key under
/// the parent adds the prefixes it lies under, until the limit is reached.
pub open spec fn scan_keys(found: Set<Seq<char>>, parent: Seq<char>, keys: Seq<Seq<char>>) -> Set<
    Seq<char>,
>
    decreases keys.len(),
{
    if keys.len() == 0 {
        found
    } else {
        let before = scan_keys(found, parent, keys.drop_last());
        if before.len() >= MAX_PREFIX_TOTAL_ITEMS {
            before
        } else if in_scope(parent, keys.last()) {
            before.union(key_prefixes(keys.last()))
        } else {
            before
        }
    }
}

/// Once the limit is reached, later keys change nothing.
pub proof fn lemma_scan_keys_saturated(
    found: Set<Seq<char>>,
    parent: Seq<char>,
    keys: Seq<Seq<char>>,
    i: int,
)
    requires
        0 <= i <= keys.len(),
        scan_keys(found, parent, keys.take(i)).len() >= MAX_PREFIX_TOTAL_ITEMS,
    ensures
        scan_keys(found, parent, keys) == scan_keys(found, parent, keys.take(i)),
    decreases keys.len() - i,
{
    if i < keys.len() {
        assert(keys.take(i + 1).drop_last() =~= keys.take(i));
        lemma_scan_keys_saturated(found, parent, keys, i + 1);
    } else {
        assert(keys.take(i) =~= keys);
    }
}

/// What an object scan found.
pub struct ObjectScanResult {
    pub prefixes: Vec<String>,
    pub visited_pages: usize,
    pub fallback_hits: usize,
    pub truncated: bool,
}

/// A scan of the object keys under one parent, page after page.
pub struct ObjectScan {
    parent: String,
    discovered: PrefixSet,
    token: Option<String>,
    visited_pages: usize,
    scanned_keys: usize,
    fallback_hits: usize,
    truncated: bool,
    finished: bool,
    awaiting: bool,
}

impl ObjectScan {
    pub closed spec fn parent(&self) -> Seq<char> {
        self.parent@
    }

    /// The prefixes found so far.
    pub closed spec fn found(&self) -> Set<Seq<char>> {
        self.discovered.members()
    }

    /// How many prefixes were found so far.
    pub closed spec fn found_count(&self) -> nat {
        self.discovered@.len()
    }

    /// The continuation token for the next page, if one was given.
    pub closed spec fn token(&self) -> Option<Seq<char>> {
        match self.token {
            Some(t) => Some(t@),
            None => None,
        }
    }

    pub closed spec fn visited_pages(&self) -> nat {
        self.visited_pages as nat
    }

    pub closed spec fn scanned_keys(&self) -> nat {
        self.scanned_keys as nat
    }

    /// How many pages came from the fallback channel.
    pub closed spec fn fallback_hits(&self) -> nat {
        self.fallback_hits as nat
    }

    /// Whether a limit stopped the scan.
    pub closed spec fn truncated(&self) -> bool {
        self.truncated
    }

    /// Whether the scan is over.
    pub closed spec fn is_finished(&self) -> bool {
        self.finished
    }

    /// Whether a page was requested and not yet taken in.
    pub closed spec fn awaiting(&self) -> bool {
        self.awaiting
    }

    /// The bookkeeping that every step keeps.
    pub open spec fn wf(&self) -> bool {
        &&& self.fallback_hits() <= self.visited_pages() <= MAX_OBJECT_SCAN_PAGES
        &&& self.found().finite()
        &&& self.found().len() == self.found_count()
        &&& self.awaiting() ==> !self.is_finished() && self.found_count() < MAX_PREFIX_TOTAL_ITEMS
            && self.scanned_keys() < MAX_OBJECT_SCAN_KEYS && self.fallback_hits()
            < self.visited_pages()
    }

    /// A scan of the keys under `parent` (all keys when it is empty).
    pub fn new(parent: String) -> (r: ObjectScan)
        ensures
            r.wf(),
            r.parent() == parent@,
            r.found() == Set::<Seq<char>>::empty(),
            r.token() is None,
            r.visited_pages() == 0,
            r.scanned_keys() == 0,
            r.fallback_hits() == 0,
            !r.truncated(),
            !r.is_finished(),
            !r.awaiting(),
    {
        let discovered = PrefixSet::new();
        proof {
            lemma_sorted_members_len(discovered@);
            assert(discovered.members() =~= Set::<Seq<char>>::empty());
        }
        ObjectScan {
            parent,
            discovered,
            token: None,
            visited_pages: 0,
            scanned_keys: 0,
            fallback_hits: 0,
            truncated: false,
            finished: false,
            awaiting: false,
        }
    }

    /// Whether the scan is over.
    pub fn finished(&self) -> (r: bool)
        ensures
            r == self.is_finished(),
    {
        self.finished
    }

    /// How many keys the scan has read.
    pub fn scanned(&self) -> (r: usize)
        ensures
            r == self.scanned_keys(),
    {
        self.scanned_keys
    }

    /// The query for the next page, or `None` when the scan is over; a scan
    /// that reaches a limit on pages, keys or prefixes ends truncated.
    pub fn next_page(&mut self) -> (r: Option<Vec<QueryParam>>)
        requires
            old(self).wf(),
            !old(self).awaiting(),
        ensures
            final(self).wf(),
            final(self).parent() == old(self).parent(),
            final(self).found() == old(self).found(),
            final(self).token() == old(self).token(),
            final(self).scanned_keys() == old(self).scanned_keys(),
            final(self).fallback_hits() == old(self).fallback_hits(),
            old(self).is_finished() ==> r is None && *final(self) == *old(self),
            !old(self).is_finished() && (old(self).visited_pages() >= MAX_OBJECT_SCAN_PAGES
                || old(self).scanned_keys() >= MAX_OBJECT_SCAN_KEYS || old(self).found_count()
                >= MAX_PREFIX_TOTAL_ITEMS) ==> r is None && final(self).truncated()
                && final(self).is_finished() && !final(self).awaiting()
                && final(self).visited_pages() == old(self).visited_pages(),
            !old(self).is_finished() && !(old(self).visited_pages() >= MAX_OBJECT_SCAN_PAGES
                || old(self).scanned_keys() >= MAX_OBJECT_SCAN_KEYS || old(self).found_count()
                >= MAX_PREFIX_TOTAL_ITEMS) ==> r is Some && query_view(r->0@) == object_page_query(
                old(self).parent(),
                old(self).token(),
            ) && final(self).awaiting() && final(self).visited_pages() == old(self).visited_pages()
                + 1 && final(self).truncated() == old(self).truncated(),
    {
        if self.finished {
            return None;
        }
        if self.visited_pages >= MAX_OBJECT_SCAN_PAGES || self.scanned_keys >= MAX_OBJECT_SCAN_KEYS
            || self.discovered.len() >= MAX_PREFIX_TOTAL_ITEMS {
            self.truncated = true;
            self.finished = true;
            return None;
        }
        self.visited_pages = self.visited_pages + 1;
        self.awaiting = true;
        Some(object_page_request_query(self.parent.as_str(), &self.token))
    }

    /// Takes in the keys of the requested page and its continuation token:
    /// the keys under the parent add their prefixes (until the limit), and
    /// an empty token ends the scan.
    pub fn absorb_page(&mut self, keys: &Vec<String>, next_token: String, used_fallback: bool)
        requires
            old(self).wf(),
            old(self).awaiting(),
            old(self).scanned_keys() + keys.len() <= usize::MAX,
        ensures
            final(self).wf(),
            !final(self).awaiting(),
            final(self).parent() == old(self).parent(),
            final(self).found() == scan_keys(old(self).found(), old(self).parent(), keys.deep_view()),
            final(self).scanned_keys() == old(self).scanned_keys() + keys.len(),
            final(self).fallback_hits() == old(self).fallback_hits() + if used_fallback {
                1int
            } else {
                0int
            },
            final(self).visited_pages() == old(self).visited_pages(),
            final(self).truncated() == old(self).truncated(),
            next_token@.len() == 0 ==> final(self).is_finished() && final(self).token()
                == old(self).token(),
            next_token@.len() > 0 ==> !final(self).is_finished() && final(self).token() == Some(
                next_token@,
            ),
    {
        if used_fallback {
            self.fallback_hits = self.fallback_hits + 1;
        }
        self.scanned_keys = self.scanned_keys + keys.len();
        let mut found = PrefixSet::new();
        std::mem::swap(&mut found, &mut self.discovered);
        let ghost start = found.members();
        let ghost parent = self.parent@;
        let n = keys.len();
        let mut i: usize = 0;
        proof {
            assert(keys.deep_view().take(0) =~= Seq::<Seq<char>>::empty());
            assert(keys.deep_view().take(n as int) =~= keys.deep_view());
        }
        while i < n
            invariant_except_break
                n == keys.len(),
                i <= n,
                keys.deep_view().take(n as int) == keys.deep_view(),
                found.members() == scan_keys(start, parent, keys.deep_view().take(i as int)),
                found.members().finite(),
                found.members().len() == found@.len(),
                found@.len() < MAX_PREFIX_TOTAL_ITEMS,
            invariant
                parent == self.parent@,
                found.members().finite(),
                found.members().len() == found@.len(),
            ensures
                found.members() == scan_keys(start, parent, keys.deep_view()),
            decreases n - i,
        {
            let ghost done = keys.deep_view().take(i + 1);
            assert(done.drop_last() =~= keys.deep_view().take(i as int));
            assert(done.last() == keys[i as int]@);
            let key = keys[i].as_str();
            if !self.parent.as_str().is_empty() && !has_prefix(key, self.parent.as_str()) {
                i = i + 1;
                continue;
            }
            collect_prefixes_from_key(key, &mut found);
            proof {
                lemma_sorted_members_len(found@);
            }
            if found.len() >= MAX_PREFIX_TOTAL_ITEMS {
                proof {
                    lemma_scan_keys_saturated(start, parent, keys.deep_view(), i + 1);
                }
                break;
            }
            i = i + 1;
        }
        self.discovered = found;
        self.awaiting = false;
        if next_token.as_str().is_empty() {
            self.finished = true;
        } else {
            self.token = Some(next_token);
        }
    }

    /// The prefixes found, in ascending order, with the counts of the scan.
    pub fn finish(self) -> (r: ObjectScanResult)
        requires
            self.wf(),
            self.is_finished(),
        ensures
            strictly_sorted(r.prefixes.deep_view()),
            r.prefixes.deep_view().to_set() == self.found(),
            r.visited_pages == self.visited_pages(),
            r.fallback_hits == self.fallback_hits(),
            r.fallback_hits <= r.visited_pages <= MAX_OBJECT_SCAN_PAGES,
            r.truncated == self.truncated(),
    {
        ObjectScanResult {
            prefixes: self.discovered.into_sorted_vec(),
            visited_pages: self.visited_pages,
            fallback_hits: self.fallback_hits,
            truncated: self.truncated,
        }
    }
}

} // verus!
