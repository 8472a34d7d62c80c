//! Listing a bucket page by page: the queries sent, what is kept of each
//! page, and the pager that walks the child prefixes of one parent.

use vstd::prelude::*;
use crate::ordered::{lemma_push_to_set, strictly_sorted, PrefixSet};
use crate::oss::{decode_oss_encoded_field, decoded_field};
use crate::paths::{normalize_prefix, normalized_prefix};
use crate::text::{trim, trimmed};

verus! {

/// A query parameter: name and value.
pub type QueryParam = (String, String);

/// Query parameters as pairs of strings of characters.
pub open spec fn query_view(q: Seq<QueryParam>) -> Seq<(Seq<char>, Seq<char>)> {
    q.map_values(|p: QueryParam| (p.0@, p.1@))
}

fn param(key: &str, value: &str) -> (r: QueryParam)
    ensures
        r.0@ == key@,
        r.1@ == value@,
{
    (key.to_owned(), value.to_owned())
}

/// The optional parameters of a listing: `prefix` when the prefix is not
/// empty, then `continuation-token` when a non-empty token is held.
pub open spec fn optional_params(prefix: Seq<char>, token: Option<Seq<char>>) -> Seq<
    (Seq<char>, Seq<char>),
> {
    let with_prefix = if prefix.len() > 0 {
        seq![("prefix"@, prefix)]
    } else {
        Seq::empty()
    };
    match token {
        Some(t) => if t.len() > 0 {
            with_prefix.push(("continuation-token"@, t))
        } else {
            with_prefix
        },
        None => with_prefix,
    }
}

/// The query for one page of the child prefixes of `parent`: grouped by
/// `/`, 1000 entries, URL-encoded names.
pub open spec fn child_prefix_query(parent: Seq<char>, token: Option<Seq<char>>) -> Seq<
    (Seq<char>, Seq<char>),
> {
    seq![("delimiter"@, "/"@), ("max-keys"@, "1000"@), ("encoding-type"@, "url"@)]
        + optional_params(parent, token)
}

/// The query for one page of object keys under `prefix`: 1000 entries,
/// URL-encoded names, no grouping.
pub open spec fn object_page_query(prefix: Seq<char>, token: Option<Seq<char>>) -> Seq<
    (Seq<char>, Seq<char>),
> {
    seq![("max-keys"@, "1000"@), ("encoding-type"@, "url"@)] + optional_params(prefix, token)
}

/// A held, non-empty continuation token is always sent, for the root as for
/// any other prefix, as the last parameter; a non-empty prefix is always
/// sent; the fixed parameters come first.
pub proof fn law_held_token_is_sent(prefix: Seq<char>, t: Seq<char>)
    ensures
        t.len() > 0 ==> child_prefix_query(prefix, Some(t)).contains(("continuation-token"@, t))
            && child_prefix_query(prefix, Some(t)).last() == ("continuation-token"@, t)
            && object_page_query(prefix, Some(t)).contains(("continuation-token"@, t))
            && object_page_query(prefix, Some(t)).last() == ("continuation-token"@, t),
        forall|tok: Option<Seq<char>>|
            prefix.len() > 0 ==> (#[trigger] child_prefix_query(prefix, tok)).contains(
                ("prefix"@, prefix),
            ) && object_page_query(prefix, tok).contains(("prefix"@, prefix)),
        forall|tok: Option<Seq<char>>|
            (#[trigger] child_prefix_query(prefix, tok)).take(3) == seq![
                ("delimiter"@, "/"@),
                ("max-keys"@, "1000"@),
                ("encoding-type"@, "url"@),
            ],
{
    if t.len() > 0 {
        let c = child_prefix_query(prefix, Some(t));
        let o = object_page_query(prefix, Some(t));
        assert(c[c.len() - 1] == ("continuation-token"@, t));
        assert(o[o.len() - 1] == ("continuation-token"@, t));
    }
    assert forall|tok: Option<Seq<char>>| prefix.len() > 0 implies (#[trigger] child_prefix_query(
        prefix,
        tok,
    )).contains(("prefix"@, prefix)) && object_page_query(prefix, tok).contains(("prefix"@, prefix)) by {
        let c = child_prefix_query(prefix, tok);
        let o = object_page_query(prefix, tok);
        assert(optional_params(prefix, tok)[0] == ("prefix"@, prefix));
        assert(c[3] == ("prefix"@, prefix));
        assert(o[2] == ("prefix"@, prefix));
    }
    assert forall|tok: Option<Seq<char>>| (#[trigger] child_prefix_query(prefix, tok)).take(3)
        == seq![("delimiter"@, "/"@), ("max-keys"@, "1000"@), ("encoding-type"@, "url"@)] by {
        assert(child_prefix_query(prefix, tok).take(3) =~= seq![
            ("delimiter"@, "/"@),
            ("max-keys"@, "1000"@),
            ("encoding-type"@, "url"@),
        ]);
    }
}

/// The query that checks access to a bucket: one grouped, URL-encoded entry.
pub open spec fn access_probe_query() -> Seq<(Seq<char>, Seq<char>)> {
    seq![("delimiter"@, "/"@), ("max-keys"@, "1"@), ("encoding-type"@, "url"@)]
}

fn push_optional_params(q: &mut Vec<QueryParam>, prefix: &str, token: &Option<String>)
    ensures
        query_view(final(q)@) == query_view(old(q)@) + optional_params(
            prefix@,
            match token {
                Some(t) => Some(t@),
                None => None,
            },
        ),
{
    let ghost start = query_view(q@);
    if !prefix.is_empty() {
        q.push(param("prefix", prefix));
    }
    assert(query_view(q@) =~= start + optional_params(prefix@, None));
    match token {
        Some(t) => {
            if !t.as_str().is_empty() {
                let ghost mid = query_view(q@);
                q.push(param("continuation-token", t.as_str()));
                assert(query_view(q@) =~= mid.push(("continuation-token"@, t@)));
            }
        },
        None => {},
    }
    assert(query_view(q@) =~= start + optional_params(
        prefix@,
        match token {
            Some(t) => Some(t@),
            None => None,
        },
    ));
}

/// The query for one page of the child prefixes of `parent`.
pub fn child_prefix_page_query(parent: &str, token: &Option<String>) -> (r: Vec<QueryParam>)
    ensures
        query_view(r@) == child_prefix_query(
            parent@,
            match token {
                Some(t) => Some(t@),
                None => None,
            },
        ),
        token is Some && token->0@.len() > 0 ==> query_view(r@).contains(
            ("continuation-token"@, token->0@),
        ),
        parent@.len() > 0 ==> query_view(r@).contains(("prefix"@, parent@)),
{
    let mut q: Vec<QueryParam> = Vec::new();
    q.push(param("delimiter", "/"));
    q.push(param("max-keys", "1000"));
    q.push(param("encoding-type", "url"));
    assert(query_view(q@) =~= seq![
        ("delimiter"@, "/"@),
        ("max-keys"@, "1000"@),
        ("encoding-type"@, "url"@),
    ]);
    push_optional_params(&mut q, parent, token);
    proof {
        let tv = match token {
            Some(t) => Some(t@),
            None => None,
        };
        match token {
            Some(t) => law_held_token_is_sent(parent@, t@),
            None => law_held_token_is_sent(parent@, Seq::empty()),
        }
        assert(child_prefix_query(parent@, tv) == query_view(q@));
    }
    q
}

/// The query for one page of object keys under `prefix`.
pub fn object_page_request_query(prefix: &str, token: &Option<String>) -> (r: Vec<QueryParam>)
    ensures
        query_view(r@) == object_page_query(
            prefix@,
            match token {
                Some(t) => Some(t@),
                None => None,
            },
        ),
        token is Some && token->0@.len() > 0 ==> query_view(r@).contains(
            ("continuation-token"@, token->0@),
        ),
        prefix@.len() > 0 ==> query_view(r@).contains(("prefix"@, prefix@)),
{
    let mut q: Vec<QueryParam> = Vec::new();
    q.push(param("max-keys", "1000"));
    q.push(param("encoding-type", "url"));
    assert(query_view(q@) =~= seq![("max-keys"@, "1000"@), ("encoding-type"@, "url"@)]);
    push_optional_params(&mut q, prefix, token);
    proof {
        let tv = match token {
            Some(t) => Some(t@),
            None => None,
        };
        match token {
            Some(t) => law_held_token_is_sent(prefix@, t@),
            None => law_held_token_is_sent(prefix@, Seq::empty()),
        }
        assert(child_prefix_query(prefix@, tv).len() >= 3);
        assert(object_page_query(prefix@, tv) == query_view(q@));
    }
    q
}

/// The query that checks access to the configured bucket.
pub fn access_probe_request_query() -> (r: Vec<QueryParam>)
    ensures
        query_view(r@) == access_probe_query(),
{
    let mut q: Vec<QueryParam> = Vec::new();
    q.push(param("delimiter", "/"));
    q.push(param("max-keys", "1"));
    q.push(param("encoding-type", "url"));
    assert(query_view(q@) =~= access_probe_query());
    q
}

/// The child prefixes a page reports: each decoded and normalised, the
/// empty ones left out.
pub open spec fn refined_prefixes(raw: Seq<Seq<char>>) -> Seq<Seq<char>>
    decreases raw.len(),
{
    if raw.len() == 0 {
        Seq::empty()
    } else {
        let init = refined_prefixes(raw.drop_last());
        let p = normalized_prefix(decoded_field(raw.last()));
        if p.len() == 0 {
            init
        } else {
            init.push(p)
        }
    }
}

/// The common prefixes of a listing page, decoded and normalised, with the
/// empty ones left out.
pub fn refine_common_prefixes(raw: &Vec<String>) -> (r: Vec<String>)
    ensures
        r.deep_view() == refined_prefixes(raw.deep_view()),
{
    let mut r: Vec<String> = Vec::new();
    let n = raw.len();
    let mut i: usize = 0;
    while i < n
        invariant
            n == raw.len(),
            i <= n,
            r.deep_view() == refined_prefixes(raw.deep_view().take(i as int)),
        decreases n - i,
    {
        let ghost done = raw.deep_view().take(i + 1);
        assert(done.drop_last() =~= raw.deep_view().take(i as int));
        assert(done.last() == raw[i as int]@);
        let p = normalize_prefix(decode_oss_encoded_field(raw[i].as_str()).as_str());
        if !p.as_str().is_empty() {
            r.push(p);
        }
        assert(r.deep_view() =~= refined_prefixes(done));
        i = i + 1;
    }
    assert(raw.deep_view().take(n as int) =~= raw.deep_view());
    r
}

/// Refining a page of common prefixes keeps, in page order, the normal
/// form of every decoded prefix that does not normalise to nothing.
pub proof fn law_refined_prefixes_keep_every_named_prefix(raw: Seq<Seq<char>>)
    ensures
        refined_prefixes(raw) == raw.map_values(
            |s: Seq<char>| normalized_prefix(decoded_field(s)),
        ).filter(|k: Seq<char>| k.len() > 0),
        forall|i: int|
            0 <= i < raw.len() && normalized_prefix(decoded_field(#[trigger] raw[i])).len() > 0
                ==> refined_prefixes(raw).contains(normalized_prefix(decoded_field(raw[i]))),
    decreases raw.len(),
{
    let f = |s: Seq<char>| normalized_prefix(decoded_field(s));
    let p = |k: Seq<char>| k.len() > 0;
    let m = raw.map_values(f);
    reveal(Seq::filter);
    if raw.len() > 0 {
        let init = raw.drop_last();
        law_refined_prefixes_keep_every_named_prefix(init);
        assert(m.drop_last() =~= init.map_values(f));
        assert(m.last() == normalized_prefix(decoded_field(raw.last())));
    } else {
        assert(m =~= Seq::<Seq<char>>::empty());
    }
    assert(refined_prefixes(raw) == m.filter(p));
    assert forall|i: int|
        0 <= i < raw.len() && normalized_prefix(decoded_field(#[trigger] raw[i])).len() > 0 implies refined_prefixes(
        raw,
    ).contains(normalized_prefix(decoded_field(raw[i]))) by {
        assert(m[i] == normalized_prefix(decoded_field(raw[i])));
        m.lemma_filter_contains(p, i);
    }
}

/// The object keys a page reports: each decoded, the empty ones left out.
pub open spec fn refined_keys(raw: Seq<Seq<char>>) -> Seq<Seq<char>>
    decreases raw.len(),
{
    if raw.len() == 0 {
        Seq::empty()
    } else {
        let init = refined_keys(raw.drop_last());
        let k = decoded_field(raw.last());
        if k.len() == 0 {
            init
        } else {
            init.push(k)
        }
    }
}

/// The object keys of a listing page, decoded, with the empty ones left out.
pub fn refine_object_keys(raw: &Vec<String>) -> (r: Vec<String>)
    ensures
        r.deep_view() == refined_keys(raw.deep_view()),
        forall|i: int|
            0 <= i < raw.len() && decoded_field(#[trigger] raw@[i]@).len() > 0 ==> r.deep_view().contains(
                decoded_field(raw@[i]@),
            ),
        forall|j: int| 0 <= j < r.len() ==> (#[trigger] r.deep_view()[j]).len() > 0,
{
    let mut r: Vec<String> = Vec::new();
    let n = raw.len();
    let mut i: usize = 0;
    while i < n
        invariant
            n == raw.len(),
            i <= n,
            r.deep_view() == refined_keys(raw.deep_view().take(i as int)),
        decreases n - i,
    {
        let ghost done = raw.deep_view().take(i + 1);
        assert(done.drop_last() =~= raw.deep_view().take(i as int));
        assert(done.last() == raw[i as int]@);
        let k = decode_oss_encoded_field(raw[i].as_str());
        if !k.as_str().is_empty() {
            r.push(k);
        }
        assert(r.deep_view() =~= refined_keys(done));
        i = i + 1;
    }
    assert(raw.deep_view().take(n as int) =~= raw.deep_view());
    proof {
        law_refined_keys_keep_every_named_key(raw.deep_view());
        assert forall|i: int|
            0 <= i < raw.len() && decoded_field(#[trigger] raw@[i]@).len() > 0 implies r.deep_view().contains(
            decoded_field(raw@[i]@),
        ) by {
            assert(raw.deep_view()[i] == raw@[i]@);
        }
    }
    r
}

/// Refining a page of object keys keeps exactly the keys that decode to a
/// non-empty string, decoded, in the order of the page: a key that names a
/// folder (ending with `/`) is kept like any other.
pub proof fn law_refined_keys_keep_every_named_key(raw: Seq<Seq<char>>)
    ensures
        refined_keys(raw) == raw.map_values(|s: Seq<char>| decoded_field(s)).filter(
            |k: Seq<char>| k.len() > 0,
        ),
        forall|i: int|
            0 <= i < raw.len() && decoded_field(#[trigger] raw[i]).len() > 0 ==> refined_keys(
                raw,
            ).contains(decoded_field(raw[i])),
        forall|j: int|
            0 <= j < refined_keys(raw).len() ==> (#[trigger] refined_keys(raw)[j]).len() > 0
                && exists|i: int| 0 <= i < raw.len() && refined_keys(raw)[j] == decoded_field(raw[i]),
    decreases raw.len(),
{
    let f = |s: Seq<char>| decoded_field(s);
    let p = |k: Seq<char>| k.len() > 0;
    let m = raw.map_values(f);
    reveal(Seq::filter);
    if raw.len() > 0 {
        let init = raw.drop_last();
        law_refined_keys_keep_every_named_key(init);
        assert(m.drop_last() =~= init.map_values(f));
        assert(m.last() == decoded_field(raw.last()));
    } else {
        assert(m =~= Seq::<Seq<char>>::empty());
    }
    assert(refined_keys(raw) == m.filter(p));
    assert forall|i: int| 0 <= i < raw.len() && decoded_field(#[trigger] raw[i]).len() > 0 implies refined_keys(
        raw,
    ).contains(decoded_field(raw[i])) by {
        assert(m[i] == decoded_field(raw[i]));
        m.lemma_filter_contains(p, i);
    }
    assert forall|j: int| 0 <= j < refined_keys(raw).len() implies (#[trigger] refined_keys(
        raw,
    )[j]).len() > 0 && exists|i: int| 0 <= i < raw.len() && refined_keys(raw)[j] == decoded_field(
        raw[i],
    ) by {
        m.lemma_filter_pred(p, j);
        m.lemma_filter_contains_rev(p, refined_keys(raw)[j]);
        let i = choose|i: int| 0 <= i < m.len() && m[i] == refined_keys(raw)[j];
        assert(refined_keys(raw)[j] == decoded_field(raw[i]));
    }
}

/// The strings in ascending order, each once (`sort` then `dedup`).
pub fn sorted_unique(items: Vec<String>) -> (r: Vec<String>)
    ensures
        strictly_sorted(r.deep_view()),
        r.deep_view().to_set() == items.deep_view().to_set(),
{
    let mut set = PrefixSet::new();
    let n = items.len();
    let mut i: usize = 0;
    while i < n
        invariant
            n == items.len(),
            i <= n,
            set.members() == items.deep_view().take(i as int).to_set(),
        decreases n - i,
    {
        let ghost before = items.deep_view().take(i as int);
        assert(items.deep_view().take(i + 1) =~= before.push(items[i as int]@));
        set.insert(items[i].clone());
        proof {
            lemma_push_to_set(before, items[i as int]@);
        }
        i = i + 1;
    }
    assert(items.deep_view().take(n as int) =~= items.deep_view());
    set.into_sorted_vec()
}

/// Appends copies of the strings of `src` to `dst`.
pub fn append_strings(dst: &mut Vec<String>, src: &Vec<String>)
    ensures
        final(dst).deep_view() == old(dst).deep_view() + src.deep_view(),
{
    let ghost before = dst.deep_view();
    let n = src.len();
    let mut i: usize = 0;
    while i < n
        invariant
            n == src.len(),
            i <= n,
            dst.deep_view() == before + src.deep_view().take(i as int),
        decreases n - i,
    {
        let ghost mid = dst.deep_view();
        dst.push(src[i].clone());
        assert(dst.deep_view() =~= mid.push(src[i as int]@));
        assert(src.deep_view().take(i + 1) =~= src.deep_view().take(i as int).push(src[i as int]@));
        assert(dst.deep_view() =~= before + src.deep_view().take(i + 1));
        i = i + 1;
    }
    assert(src.deep_view().take(n as int) =~= src.deep_view());
}

/// Walks the pages of the child prefixes of one parent, collecting them.
pub struct ChildPrefixPager {
    parent: String,
    token: Option<String>,
    prefixes: Vec<String>,
    finished: bool,
}

impl ChildPrefixPager {
    /// The parent prefix whose children are listed.
    pub closed spec fn parent(&self) -> Seq<char> {
        self.parent@
    }

    /// The continuation token for the next page, if one was given.
    pub closed spec fn token(&self) -> Option<Seq<char>> {
        match self.token {
            Some(t) => Some(t@),
            None => None,
        }
    }

    /// The prefixes collected so far, page after page.
    pub closed spec fn collected(&self) -> Seq<Seq<char>> {
        self.prefixes.deep_view()
    }

    /// Whether the last page has been absorbed.
    pub closed spec fn is_finished(&self) -> bool {
        self.finished
    }

    pub fn new(parent: String) -> (r: ChildPrefixPager)
        ensures
            r.parent() == parent@,
            r.token() is None,
            r.collected() == Seq::<Seq<char>>::empty(),
            !r.is_finished(),
    {
        let r = ChildPrefixPager { parent, token: None, prefixes: Vec::new(), finished: false };
        assert(r.prefixes.deep_view() =~= Seq::<Seq<char>>::empty());
        r
    }

    pub fn finished(&self) -> (r: bool)
        ensures
            r == self.is_finished(),
    {
        self.finished
    }

    /// The query for the next page.
    pub fn next_query(&self) -> (r: Vec<QueryParam>)
        ensures
            query_view(r@) == child_prefix_query(self.parent(), self.token()),
    {
        child_prefix_page_query(self.parent.as_str(), &self.token)
    }

    /// Takes in a page: its (refined) prefixes are added, and its trimmed
    /// continuation token is kept, or the listing ends when it is empty.
    pub fn absorb_page(&mut self, page_prefixes: Vec<String>, next_token: &str)
        ensures
            final(self).parent() == old(self).parent(),
            final(self).collected() == old(self).collected() + page_prefixes.deep_view(),
            trimmed(next_token@).len() == 0 ==> final(self).is_finished() && final(self).token()
                == old(self).token(),
            trimmed(next_token@).len() > 0 ==> !final(self).is_finished() && final(self).token()
                == Some(trimmed(next_token@)),
    {
        append_strings(&mut self.prefixes, &page_prefixes);
        let t = trim(next_token);
        if t.as_str().is_empty() {
            self.finished = true;
        } else {
            self.finished = false;
            self.token = Some(t);
        }
    }

    /// The collected prefixes in ascending order, each once.
    pub fn into_prefixes(self) -> (r: Vec<String>)
        ensures
            strictly_sorted(r.deep_view()),
            r.deep_view().to_set() == self.collected().to_set(),
    {
        sorted_unique(self.prefixes)
    }
}

/// The parent whose children are listed: the one asked for (the root when
/// none is), normalised.
pub fn prefix_listing_parent(parent: Option<String>) -> (r: String)
    ensures
        r@ == normalized_prefix(
            match parent {
                Some(p) => p@,
                None => Seq::empty(),
            },
        ),
{
    match parent {
        Some(p) => normalize_prefix(p.as_str()),
        None => {
            let root = String::new();
            normalize_prefix(root.as_str())
        },
    }
}

} // verus!
