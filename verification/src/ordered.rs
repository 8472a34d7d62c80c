//! A set of strings kept in ascending order without repeats: what a
//! `HashSet<String>` followed by `sort` and `dedup` gives.

use vstd::prelude::*;
use crate::text::chars_of;

verus! {

/// Lexicographic order by code point, which is the order of `String`'s `Ord`
/// (UTF-8 keeps the order of code points).
pub open spec fn seq_lt(a: Seq<char>, b: Seq<char>) -> bool
    decreases a.len(),
{
    if b.len() == 0 {
        false
    } else if a.len() == 0 {
        true
    } else if a[0] != b[0] {
        a[0] < b[0]
    } else {
        seq_lt(a.drop_first(), b.drop_first())
    }
}

/// Every element is smaller than every later one.
pub open spec fn strictly_sorted(v: Seq<Seq<char>>) -> bool {
    forall|i: int, j: int| 0 <= i < j < v.len() ==> seq_lt(#[trigger] v[i], #[trigger] v[j])
}

pub proof fn lemma_lt_irreflexive(a: Seq<char>)
    ensures
        !seq_lt(a, a),
    decreases a.len(),
{
    if a.len() > 0 {
        lemma_lt_irreflexive(a.drop_first());
    }
}

pub proof fn lemma_lt_transitive(a: Seq<char>, b: Seq<char>, c: Seq<char>)
    requires
        seq_lt(a, b),
        seq_lt(b, c),
    ensures
        seq_lt(a, c),
    decreases a.len(),
{
    if a.len() > 0 && b.len() > 0 && c.len() > 0 && a[0] == b[0] && b[0] == c[0] {
        lemma_lt_transitive(a.drop_first(), b.drop_first(), c.drop_first());
    }
}

pub proof fn lemma_lt_total(a: Seq<char>, b: Seq<char>)
    requires
        a != b,
    ensures
        seq_lt(a, b) || seq_lt(b, a),
    decreases a.len(),
{
    if a.len() > 0 && b.len() > 0 {
        if a[0] == b[0] {
            if a.drop_first() == b.drop_first() {
                assert(a =~= seq![a[0]] + a.drop_first());
                assert(b =~= seq![b[0]] + b.drop_first());
            }
            lemma_lt_total(a.drop_first(), b.drop_first());
        }
    } else if a.len() == 0 && b.len() == 0 {
        assert(a =~= b);
    }
}

pub proof fn lemma_lt_asymmetric(a: Seq<char>, b: Seq<char>)
    requires
        seq_lt(a, b),
    ensures
        !seq_lt(b, a),
{
    if seq_lt(b, a) {
        lemma_lt_transitive(a, b, a);
        lemma_lt_irreflexive(a);
    }
}

/// Whether `a` comes before `b` in code-point order.
pub fn chars_less(a: &Vec<char>, b: &Vec<char>) -> (r: bool)
    ensures
        r == seq_lt(a@, b@),
{
    let mut i: usize = 0;
    assert(a@.skip(0) =~= a@);
    assert(b@.skip(0) =~= b@);
    while i < a.len() && i < b.len() && a[i] == b[i]
        invariant
            i <= a.len(),
            i <= b.len(),
            seq_lt(a@, b@) == seq_lt(a@.skip(i as int), b@.skip(i as int)),
        decreases a.len() - i,
    {
        assert(a@.skip(i as int).drop_first() =~= a@.skip(i + 1));
        assert(b@.skip(i as int).drop_first() =~= b@.skip(i + 1));
        i = i + 1;
    }
    if i == b.len() {
        false
    } else if i == a.len() {
        true
    } else {
        a[i] < b[i]
    }
}

/// Whether `a` and `b` hold the same characters.
pub fn chars_equal(a: &Vec<char>, b: &Vec<char>) -> (r: bool)
    ensures
        r == (a@ == b@),
{
    if a.len() != b.len() {
        return false;
    }
    let mut i: usize = 0;
    while i < a.len()
        invariant
            a.len() == b.len(),
            i <= a.len(),
            forall|k: int| 0 <= k < i ==> a@[k] == b@[k],
        decreases a.len() - i,
    {
        if a[i] != b[i] {
            return false;
        }
        i = i + 1;
    }
    assert(a@ =~= b@);
    true
}

/// Appending an element adds it to the set of elements.
pub proof fn lemma_push_to_set<A>(s: Seq<A>, x: A)
    ensures
        s.push(x).to_set() == s.to_set().insert(x),
{
    let t = s.push(x);
    assert forall|y: A| t.to_set().contains(y) <==> s.to_set().insert(x).contains(y) by {
        if t.to_set().contains(y) {
            let k = choose|k: int| 0 <= k < t.len() && t[k] == y;
            if k < s.len() {
                assert(s[k] == y);
            }
        }
        if s.to_set().contains(y) {
            let k = choose|k: int| 0 <= k < s.len() && s[k] == y;
            assert(t[k] == y);
        }
        if y == x {
            assert(t[s.len() as int] == y);
        }
    }
    assert(t.to_set() =~= s.to_set().insert(x));
}

/// A strictly sorted sequence repeats nothing, so its set of elements
/// has as many members as it has positions.
pub proof fn lemma_sorted_members_len(v: Seq<Seq<char>>)
    requires
        strictly_sorted(v),
    ensures
        v.to_set().finite(),
        v.to_set().len() == v.len(),
{
    assert(v.no_duplicates()) by {
        assert forall|i: int, j: int| 0 <= i < v.len() && 0 <= j < v.len() && i != j implies v[i]
            != v[j] by {
            if i < j {
                lemma_lt_irreflexive(v[i]);
            } else {
                lemma_lt_irreflexive(v[j]);
            }
        }
    }
    v.unique_seq_to_set();
}

/// No element of a strictly sorted `v` equals `key` when `p` splits `v` into
/// the elements before `key` and the rest, and `v[p]` is not `key`.
proof fn lemma_absent_from(v: Seq<Seq<char>>, p: int, key: Seq<char>)
    requires
        strictly_sorted(v),
        0 <= p <= v.len(),
        forall|i: int| 0 <= i < p ==> seq_lt(#[trigger] v[i], key),
        forall|i: int| p <= i < v.len() ==> !seq_lt(#[trigger] v[i], key),
        p < v.len() ==> v[p] != key,
    ensures
        !v.contains(key),
{
    if v.contains(key) {
        let j = choose|j: int| 0 <= j < v.len() && v[j] == key;
        if j < p {
            lemma_lt_irreflexive(key);
        } else if j > p {
            assert(seq_lt(v[p], v[j]));
        }
    }
}

proof fn lemma_sorted_first_is_least(v: Seq<Seq<char>>, x: Seq<char>)
    requires
        strictly_sorted(v),
        v.len() > 0,
        v.contains(x),
        x != v[0],
    ensures
        seq_lt(v[0], x),
{
    let i = choose|i: int| 0 <= i < v.len() && v[i] == x;
    assert(i != 0);
}

/// Two strictly sorted sequences with the same elements are the same: the
/// order and the absence of repeats leave no choice.
pub proof fn law_sorted_set_determines_sequence(a: Seq<Seq<char>>, b: Seq<Seq<char>>)
    requires
        strictly_sorted(a),
        strictly_sorted(b),
        a.to_set() == b.to_set(),
    ensures
        a == b,
    decreases a.len(),
{
    if a.len() == 0 {
        if b.len() > 0 {
            assert(b.to_set().contains(b[0]));
        }
        assert(a =~= b);
    } else {
        assert(a.to_set().contains(a[0]));
        assert(b.len() > 0);
        assert(b.to_set().contains(b[0]));
        if a[0] != b[0] {
            lemma_sorted_first_is_least(a, b[0]);
            lemma_sorted_first_is_least(b, a[0]);
            lemma_lt_asymmetric(a[0], b[0]);
        }
        let a2 = a.drop_first();
        let b2 = b.drop_first();
        assert(strictly_sorted(a2)) by {
            assert forall|i: int, j: int| 0 <= i < j < a2.len() implies seq_lt(
                #[trigger] a2[i],
                #[trigger] a2[j],
            ) by {
                assert(a2[i] == a[i + 1] && a2[j] == a[j + 1]);
            }
        }
        assert(strictly_sorted(b2)) by {
            assert forall|i: int, j: int| 0 <= i < j < b2.len() implies seq_lt(
                #[trigger] b2[i],
                #[trigger] b2[j],
            ) by {
                assert(b2[i] == b[i + 1] && b2[j] == b[j + 1]);
            }
        }
        assert(a2.to_set() =~= b2.to_set()) by {
            assert forall|x: Seq<char>| a2.to_set().contains(x) <==> b2.to_set().contains(x) by {
                if a2.to_set().contains(x) {
                    let i = choose|i: int| 0 <= i < a2.len() && a2[i] == x;
                    assert(a[i + 1] == x);
                    lemma_lt_irreflexive(x);
                    assert(a.to_set().contains(x));
                    let j = choose|j: int| 0 <= j < b.len() && b[j] == x;
                    if j == 0 {
                        assert(seq_lt(a[0], a[i + 1]));
                    }
                    assert(b2[j - 1] == x);
                }
                if b2.to_set().contains(x) {
                    let i = choose|i: int| 0 <= i < b2.len() && b2[i] == x;
                    assert(b[i + 1] == x);
                    lemma_lt_irreflexive(x);
                    assert(b.to_set().contains(x));
                    let j = choose|j: int| 0 <= j < a.len() && a[j] == x;
                    if j == 0 {
                        assert(seq_lt(b[0], b[i + 1]));
                    }
                    assert(a2[j - 1] == x);
                }
            }
        }
        law_sorted_set_determines_sequence(a2, b2);
        assert(a =~= b) by {
            assert forall|i: int| 0 <= i < a.len() implies a[i] == b[i] by {
                if i > 0 {
                    assert(a[i] == a2[i - 1]);
                    assert(b[i] == b2[i - 1]);
                }
            }
        }
    }
}

/// Strings in ascending code-point order, each at most once.
pub struct PrefixSet {
    items: Vec<String>,
}

impl View for PrefixSet {
    type V = Seq<Seq<char>>;

    closed spec fn view(&self) -> Seq<Seq<char>> {
        self.items.deep_view()
    }
}

impl PrefixSet {
    /// The elements ascend strictly.
    #[verifier::type_invariant]
    pub open spec fn sorted(&self) -> bool {
        strictly_sorted(self@)
    }

    /// The elements as a mathematical set.
    pub open spec fn members(&self) -> Set<Seq<char>> {
        self@.to_set()
    }

    pub fn new() -> (r: PrefixSet)
        ensures
            r@ == Seq::<Seq<char>>::empty(),
            strictly_sorted(r@),
    {
        let r = PrefixSet { items: Vec::new() };
        assert(r.items.deep_view() =~= Seq::<Seq<char>>::empty());
        r
    }

    pub fn len(&self) -> (r: usize)
        ensures
            r == self@.len(),
            strictly_sorted(self@),
    {
        proof {
            use_type_invariant(self);
        }
        self.items.len()
    }

    /// The first position whose element does not come before `key`.
    fn position(&self, key: &Vec<char>) -> (p: usize)
        ensures
            p <= self@.len(),
            forall|i: int| 0 <= i < p ==> seq_lt(#[trigger] self@[i], key@),
            forall|i: int| p <= i < self@.len() ==> !seq_lt(#[trigger] self@[i], key@),
    {
        proof {
            use_type_invariant(self);
        }
        let mut lo: usize = 0;
        let mut hi: usize = self.items.len();
        while lo < hi
            invariant
                hi <= self@.len(),
                lo <= hi,
                self@ == self.items.deep_view(),
                strictly_sorted(self@),
                forall|i: int| 0 <= i < lo ==> seq_lt(#[trigger] self@[i], key@),
                forall|i: int| hi <= i < self@.len() ==> !seq_lt(#[trigger] self@[i], key@),
            decreases hi - lo,
        {
            let mid = lo + (hi - lo) / 2;
            let probe = chars_of(self.items[mid].as_str());
            assert(probe@ == self@[mid as int]);
            if chars_less(&probe, key) {
                assert forall|i: int| 0 <= i < mid + 1 implies seq_lt(#[trigger] self@[i], key@) by {
                    if i < mid {
                        lemma_lt_transitive(self@[i], self@[mid as int], key@);
                    }
                }
                lo = mid + 1;
            } else {
                assert forall|i: int| mid <= i < self@.len() implies !seq_lt(
                    #[trigger] self@[i],
                    key@,
                ) by {
                    if i > mid && seq_lt(self@[i], key@) {
                        lemma_lt_transitive(self@[mid as int], self@[i], key@);
                    }
                }
                hi = mid;
            }
        }
        lo
    }

    /// Whether `s` is an element.
    pub fn contains(&self, s: &str) -> (r: bool)
        ensures
            r == self@.contains(s@),
    {
        proof {
            use_type_invariant(self);
        }
        let key = chars_of(s);
        let p = self.position(&key);
        if p < self.items.len() {
            let found = chars_of(self.items[p].as_str());
            let same = chars_equal(&found, &key);
            if !same {
                proof {
                    lemma_absent_from(self@, p as int, key@);
                }
            } else {
                assert(self@[p as int] == s@);
            }
            same
        } else {
            proof {
                lemma_absent_from(self@, p as int, key@);
            }
            false
        }
    }

    /// Adds `s`; answers whether it was not there before (`HashSet::insert`).
    pub fn insert(&mut self, s: String) -> (added: bool)
        ensures
            added == !old(self)@.contains(s@),
            final(self).members() == old(self).members().insert(s@),
            final(self)@.len() == old(self)@.len() + if added { 1int } else { 0int },
            strictly_sorted(final(self)@),
    {
        proof {
            use_type_invariant(&*self);
        }
        let key = chars_of(s.as_str());
        let p = self.position(&key);
        if p < self.items.len() {
            let found = chars_of(self.items[p].as_str());
            if chars_equal(&found, &key) {
                assert(self@[p as int] == s@);
                assert(self.members().insert(s@) =~= self.members());
                return false;
            }
        }
        proof {
            lemma_absent_from(self@, p as int, key@);
        }
        let ghost before = self@;
        let ghost new_items = before.insert(p as int, s@);
        proof {
            assert forall|k: int| p <= k < before.len() implies seq_lt(key@, #[trigger] before[k]) by {
                if k > p {
                    lemma_lt_total(before[p as int], key@);
                    lemma_lt_transitive(key@, before[p as int], before[k]);
                } else {
                    lemma_lt_total(before[p as int], key@);
                }
            }
            assert forall|i: int, j: int| 0 <= i < j < new_items.len() implies seq_lt(
                #[trigger] new_items[i],
                #[trigger] new_items[j],
            ) by {
                if j < p {
                    assert(new_items[i] == before[i] && new_items[j] == before[j]);
                } else if j == p {
                    assert(new_items[i] == before[i]);
                } else if i < p {
                    assert(new_items[i] == before[i]);
                    assert(new_items[j] == before[j - 1]);
                    assert(seq_lt(key@, before[j - 1]));
                    lemma_lt_transitive(new_items[i], key@, new_items[j]);
                } else if i == p {
                    assert(new_items[j] == before[j - 1]);
                    assert(seq_lt(key@, before[j - 1]));
                } else {
                    assert(new_items[i] == before[i - 1]);
                    assert(new_items[j] == before[j - 1]);
                }
            }
        }
        let mut items: Vec<String> = Vec::new();
        std::mem::swap(&mut items, &mut self.items);
        items.insert(p, s);
        assert(items.deep_view() =~= new_items);
        self.items = items;
        assert(self@ =~= new_items);
        assert(self.members() =~= old(self).members().insert(key@)) by {
            assert forall|x: Seq<char>| self.members().contains(x) <==> old(self).members().insert(
                key@,
            ).contains(x) by {
                if self.members().contains(x) {
                    let k = choose|k: int| 0 <= k < new_items.len() && new_items[k] == x;
                    if k < p {
                        assert(before[k] == x);
                    } else if k > p {
                        assert(before[k - 1] == x);
                    }
                }
                if old(self).members().contains(x) && x != key@ {
                    let k = choose|k: int| 0 <= k < before.len() && before[k] == x;
                    if k < p {
                        assert(new_items[k] == x);
                    } else {
                        assert(new_items[k + 1] == x);
                    }
                }
                if x == key@ {
                    assert(new_items[p as int] == x);
                }
            }
        }
        true
    }

    /// The elements in ascending order.
    pub fn into_sorted_vec(self) -> (r: Vec<String>)
        ensures
            r.deep_view() == self@,
            strictly_sorted(r.deep_view()),
    {
        proof {
            use_type_invariant(&self);
        }
        self.items
    }
}

} // verus!
