//! Object-key prefixes ("directories" of a bucket): normalising them,
//! checking an upload path, and deriving the prefixes a key lies under.

use vstd::prelude::*;
use crate::ordered::PrefixSet;
use crate::text::{
    chars_of, join_strings, join_with, lemma_join_split, lemma_split_append,
    lemma_split_join, lemma_split_last, lemma_split_nonempty, lemma_split_pieces, lemma_trimmed_contains,
    lemma_trimmed_fixed, lemma_trimmed_idempotent, lemma_trimmed_shape, split_chars, split_on, trim,
    trimmed,
};

verus! {

/// A segment that names no directory: empty, `.` or `..`.
pub open spec fn names_nothing(seg: Seq<char>) -> bool {
    seg.len() == 0 || seg == seq!['.'] || seg == seq!['.', '.']
}

/// The pieces trimmed, with those that name nothing left out.
pub open spec fn clean_segments(parts: Seq<Seq<char>>) -> Seq<Seq<char>>
    decreases parts.len(),
{
    if parts.len() == 0 {
        Seq::empty()
    } else {
        let init = clean_segments(parts.drop_last());
        let t = trimmed(parts.last());
        if names_nothing(t) {
            init
        } else {
            init.push(t)
        }
    }
}

/// The normal form of a prefix: its meaningful segments joined by `/`,
/// followed by one `/`; the empty string when none is left.
pub open spec fn normalized_prefix(s: Seq<char>) -> Seq<char> {
    let joined = join_with(clean_segments(split_on(s, '/')), seq!['/']);
    if joined.len() == 0 {
        Seq::empty()
    } else {
        joined.push('/')
    }
}

/// Whether `seg` is empty, `.` or `..`.
pub fn is_dot_or_empty(seg: &str) -> (r: bool)
    ensures
        r == names_nothing(seg@),
{
    let cs = chars_of(seg);
    let n = cs.len();
    if n == 0 {
        true
    } else if n == 1 {
        if cs[0] == '.' {
            assert(seg@ =~= seq!['.']);
            true
        } else {
            false
        }
    } else if n == 2 {
        if cs[0] == '.' && cs[1] == '.' {
            assert(seg@ =~= seq!['.', '.']);
            true
        } else {
            false
        }
    } else {
        false
    }
}

/// Brings a prefix to its normal form: segments trimmed, empty, `.` and `..`
/// segments dropped, the rest joined by `/` and ended by `/` (or nothing).
pub fn normalize_prefix(value: &str) -> (r: String)
    ensures
        r@ == normalized_prefix(value@),
{
    let parts = split_chars(value, '/');
    let mut kept: Vec<String> = Vec::new();
    let n = parts.len();
    let mut i: usize = 0;
    while i < n
        invariant
            n == parts.len(),
            i <= n,
            kept.deep_view() == clean_segments(parts.deep_view().take(i as int)),
        decreases n - i,
    {
        let ghost done = parts.deep_view().take(i + 1);
        assert(done.drop_last() =~= parts.deep_view().take(i as int));
        assert(done.last() == parts[i as int]@);
        let t = trim(parts[i].as_str());
        if !is_dot_or_empty(t.as_str()) {
            kept.push(t);
        }
        assert(kept.deep_view() =~= clean_segments(done));
        i = i + 1;
    }
    assert(parts.deep_view().take(n as int) =~= parts.deep_view());
    let slash = "/";
    proof {
        reveal_strlit("/");
        assert(slash@ =~= seq!['/']);
    }
    let mut joined = join_strings(&kept, slash);
    if joined.as_str().is_empty() {
        String::new()
    } else {
        joined.append(slash);
        joined
    }
}

/// Why an upload path was refused.
#[derive(PartialEq, Eq, Structural, Clone, Copy, Debug)]
pub enum UploadPathError {
    /// The path starts with `/`.
    LeadingSlash,
    /// The path does not end with `/`.
    MissingTrailingSlash,
    /// The path holds a backslash.
    Backslash,
    /// The path holds `//`.
    RepeatedSlash,
    /// A segment is `.` or `..`.
    DotSegment,
    /// A segment has white space at one of its ends.
    UntrimmedSegment,
}

/// Whether `c` occurs twice in a row in `s`.
pub open spec fn has_repeated(s: Seq<char>, c: char) -> bool {
    exists|i: int| 0 <= i && i + 1 < s.len() && #[trigger] s[i] == c && s[i + 1] == c
}

/// The complaint about the first offending non-empty segment, if any.
pub open spec fn segment_error(parts: Seq<Seq<char>>) -> Option<UploadPathError>
    decreases parts.len(),
{
    if parts.len() == 0 {
        None
    } else {
        match segment_error(parts.drop_last()) {
            Some(e) => Some(e),
            None => {
                let seg = parts.last();
                if seg.len() == 0 {
                    None
                } else if seg == seq!['.'] || seg == seq!['.', '.'] {
                    Some(UploadPathError::DotSegment)
                } else if trimmed(seg) != seg {
                    Some(UploadPathError::UntrimmedSegment)
                } else {
                    None
                }
            },
        }
    }
}

/// What checking `v` as an upload path gives: the trimmed path, or the first
/// rule it breaks, in the order the rules are checked.
pub open spec fn upload_path_outcome(v: Seq<char>) -> Result<Seq<char>, UploadPathError> {
    let raw = trimmed(v);
    if raw.len() == 0 {
        Ok(Seq::empty())
    } else if raw[0] == '/' {
        Err(UploadPathError::LeadingSlash)
    } else if raw.last() != '/' {
        Err(UploadPathError::MissingTrailingSlash)
    } else if raw.contains('\\') {
        Err(UploadPathError::Backslash)
    } else if has_repeated(raw, '/') {
        Err(UploadPathError::RepeatedSlash)
    } else {
        match segment_error(split_on(raw, '/')) {
            Some(e) => Err(e),
            None => Ok(raw),
        }
    }
}

/// Checks a path to upload under: trimmed, it must be empty, or not start
/// with `/`, end with `/`, hold no backslash and no `//`, and have only
/// trimmed segments other than `.` and `..`.
#[verifier::loop_isolation(false)]
pub fn validate_upload_path(value: &str) -> (r: Result<String, UploadPathError>)
    ensures
        match r {
            Ok(path) => upload_path_outcome(value@) == Ok::<Seq<char>, UploadPathError>(path@),
            Err(e) => upload_path_outcome(value@) == Err::<Seq<char>, UploadPathError>(e),
        },
{
    let raw = trim(value);
    let cs = chars_of(raw.as_str());
    let n = cs.len();
    if n == 0 {
        return Ok(String::new());
    }
    if cs[0] == '/' {
        return Err(UploadPathError::LeadingSlash);
    }
    if cs[n - 1] != '/' {
        return Err(UploadPathError::MissingTrailingSlash);
    }
    let mut i: usize = 0;
    while i < n
        invariant
            cs@ == raw@,
            n == cs.len(),
            i <= n,
            forall|k: int| 0 <= k < i ==> cs@[k] != '\\',
        decreases n - i,
    {
        if cs[i] == '\\' {
            assert(raw@.contains('\\')) by {
                assert(raw@[i as int] == '\\');
            }
            return Err(UploadPathError::Backslash);
        }
        i = i + 1;
    }
    let mut i: usize = 0;
    while i + 1 < n
        invariant
            cs@ == raw@,
            n == cs.len(),
            i < n,
            forall|k: int| 0 <= k < n ==> cs@[k] != '\\',
            forall|k: int| 0 <= k < i && k + 1 < n ==> !(#[trigger] cs@[k] == '/' && cs@[k + 1] == '/'),
        decreases n - i,
    {
        if cs[i] == '/' && cs[i + 1] == '/' {
            return Err(UploadPathError::RepeatedSlash);
        }
        i = i + 1;
    }
    assert(!has_repeated(raw@, '/'));
    let parts = split_chars(raw.as_str(), '/');
    let m = parts.len();
    let mut j: usize = 0;
    while j < m
        invariant
            m == parts.len(),
            j <= m,
            segment_error(parts.deep_view().take(j as int)) is None,
        decreases m - j,
    {
        let ghost done = parts.deep_view().take(j + 1);
        assert(done.drop_last() =~= parts.deep_view().take(j as int));
        assert(done.last() == parts[j as int]@);
        let seg = parts[j].as_str();
        if !seg.is_empty() {
            if is_dot_or_empty(seg) {
                assert(segment_error(done) == Some(UploadPathError::DotSegment));
                assert(segment_error(parts.deep_view()) == Some(UploadPathError::DotSegment)) by {
                    lemma_segment_error_prefix(parts.deep_view(), j + 1);
                }
                return Err(UploadPathError::DotSegment);
            }
            let t = trim(seg);
            if !crate::ordered::chars_equal(&chars_of(t.as_str()), &chars_of(seg)) {
                assert(segment_error(done) == Some(UploadPathError::UntrimmedSegment));
                assert(segment_error(parts.deep_view()) == Some(UploadPathError::UntrimmedSegment))
                    by {
                    lemma_segment_error_prefix(parts.deep_view(), j + 1);
                }
                return Err(UploadPathError::UntrimmedSegment);
            }
        }
        j = j + 1;
    }
    assert(parts.deep_view().take(m as int) =~= parts.deep_view());
    Ok(raw)
}

/// Once a complaint is found among the first `k` segments it is the answer.
pub proof fn lemma_segment_error_prefix(parts: Seq<Seq<char>>, k: int)
    requires
        0 <= k <= parts.len(),
        segment_error(parts.take(k)) is Some,
    ensures
        segment_error(parts) == segment_error(parts.take(k)),
    decreases parts.len() - k,
{
    if k < parts.len() {
        assert(parts.take(k + 1).drop_last() =~= parts.take(k));
        lemma_segment_error_prefix(parts, k + 1);
    } else {
        assert(parts.take(k) =~= parts);
    }
}

/// The pieces that are not empty, in order.
pub open spec fn non_empty(parts: Seq<Seq<char>>) -> Seq<Seq<char>>
    decreases parts.len(),
{
    if parts.len() == 0 {
        Seq::empty()
    } else {
        let init = non_empty(parts.drop_last());
        if parts.last().len() == 0 {
            init
        } else {
            init.push(parts.last())
        }
    }
}

/// The non-empty segments of the trimmed key.
pub open spec fn key_segments(key: Seq<char>) -> Seq<Seq<char>> {
    non_empty(split_on(trimmed(key), '/'))
}

/// How many directory levels the key lies under: all its segments when the
/// trimmed key ends with `/`, else all but the last (the object's own name).
pub open spec fn key_depth(key: Seq<char>) -> int {
    let k = trimmed(key);
    let segs = key_segments(key);
    if k.len() == 0 || segs.len() == 0 {
        0
    } else if k.last() == '/' {
        segs.len() as int
    } else {
        segs.len() - 1
    }
}

/// The prefix of depth `d`: the first `d` segments joined by `/`, then `/`.
pub open spec fn key_prefix_at(key: Seq<char>, d: int) -> Seq<char> {
    join_with(key_segments(key).take(d), seq!['/']).push('/')
}

/// The directory prefixes of the first `upto` depths of `key`.
pub open spec fn key_prefixes_upto(key: Seq<char>, upto: int) -> Set<Seq<char>> {
    Set::new(|p: Seq<char>| exists|d: int| 1 <= d <= upto && p == #[trigger] key_prefix_at(key, d))
}

/// Every directory prefix that `key` lies under.
pub open spec fn key_prefixes(key: Seq<char>) -> Set<Seq<char>> {
    key_prefixes_upto(key, key_depth(key))
}

/// The non-empty strings of `parts`, in order.
pub fn non_empty_parts(parts: Vec<String>) -> (r: Vec<String>)
    ensures
        r.deep_view() == non_empty(parts.deep_view()),
{
    let mut r: Vec<String> = Vec::new();
    let n = parts.len();
    let mut i: usize = 0;
    while i < n
        invariant
            n == parts.len(),
            i <= n,
            r.deep_view() == non_empty(parts.deep_view().take(i as int)),
        decreases n - i,
    {
        let ghost done = parts.deep_view().take(i + 1);
        assert(done.drop_last() =~= parts.deep_view().take(i as int));
        assert(done.last() == parts[i as int]@);
        if !parts[i].as_str().is_empty() {
            r.push(parts[i].clone());
        }
        assert(r.deep_view() =~= non_empty(done));
        i = i + 1;
    }
    assert(parts.deep_view().take(n as int) =~= parts.deep_view());
    r
}

/// Adds to `discovered` every directory prefix the object key lies under:
/// `a/b/c.txt` gives `a/` and `a/b/`; `a/b/` gives `a/` and `a/b/`.
pub fn collect_prefixes_from_key(key: &str, discovered: &mut PrefixSet)
    ensures
        final(discovered).members() == old(discovered).members().union(key_prefixes(key@)),
        crate::ordered::strictly_sorted(final(discovered)@),
{
    proof {
        use_type_invariant(&*discovered);
    }
    let normalized_key = trim(key);
    if normalized_key.as_str().is_empty() {
        assert(key_prefixes(key@) =~= Set::empty());
        assert(old(discovered).members().union(Set::empty()) =~= old(discovered).members());
        return;
    }
    let segments = non_empty_parts(split_chars(normalized_key.as_str(), '/'));
    let count = segments.len();
    if count == 0 {
        assert(key_prefixes(key@) =~= Set::empty());
        assert(old(discovered).members().union(Set::empty()) =~= old(discovered).members());
        return;
    }
    let cs = chars_of(normalized_key.as_str());
    let include_depth = if cs[cs.len() - 1] == '/' {
        count
    } else {
        count - 1
    };
    assert(include_depth == key_depth(key@));
    let slash = "/";
    proof {
        reveal_strlit("/");
        assert(slash@ =~= seq!['/']);
    }
    let mut joined = String::new();
    let mut done: usize = 0;
    assert(old(discovered).members().union(key_prefixes_upto(key@, 0)) =~= old(discovered).members());
    while done < include_depth
        invariant
            done <= include_depth,
            include_depth <= count,
            count == segments.len(),
            segments.deep_view() == key_segments(key@),
            slash@ == seq!['/'],
            joined@ == join_with(key_segments(key@).take(done as int), seq!['/']),
            discovered.members() == old(discovered).members().union(
                key_prefixes_upto(key@, done as int),
            ),
            crate::ordered::strictly_sorted(discovered@),
        decreases include_depth - done,
    {
        let depth = done + 1;
        let ghost segs = key_segments(key@);
        let ghost upto = segs.take(depth as int);
        assert(upto.drop_last() =~= segs.take(done as int));
        assert(upto.last() == segments[done as int]@);
        if done > 0 {
            joined.append(slash);
        } else {
            assert(segs.take(0) =~= Seq::<Seq<char>>::empty());
            assert(joined@ =~= Seq::<char>::empty());
        }
        joined.append(segments[done].as_str());
        assert(joined@ =~= join_with(upto, seq!['/']));
        let mut prefix = joined.clone();
        prefix.append(slash);
        assert(prefix@ == key_prefix_at(key@, depth as int));
        discovered.insert(prefix);
        assert(discovered.members() =~= old(discovered).members().union(
            key_prefixes_upto(key@, depth as int),
        )) by {
            assert forall|p: Seq<char>| key_prefixes_upto(key@, depth as int).contains(p) <==> (
            key_prefixes_upto(key@, done as int).contains(p) || p == key_prefix_at(key@, depth as int)) by {
                if key_prefixes_upto(key@, depth as int).contains(p) {
                    let d = choose|d: int| 1 <= d <= depth && p == #[trigger] key_prefix_at(key@, d);
                    if d < depth {
                        assert(key_prefixes_upto(key@, done as int).contains(p));
                    }
                }
                if key_prefixes_upto(key@, done as int).contains(p) {
                    let d = choose|d: int| 1 <= d <= done && p == #[trigger] key_prefix_at(key@, d);
                    assert(key_prefixes_upto(key@, depth as int).contains(p));
                }
            }
        }
        done = depth;
    }
}

/// A segment of a prefix in normal form: not empty, `.` or `..`, trimmed,
/// and without `/`.
pub open spec fn proper_segment(t: Seq<char>) -> bool {
    !names_nothing(t) && trimmed(t) == t && !t.contains('/')
}

proof fn lemma_clean_fixed(p: Seq<Seq<char>>)
    requires
        forall|i: int| 0 <= i < p.len() ==> proper_segment(#[trigger] p[i]),
    ensures
        clean_segments(p) == p,
    decreases p.len(),
{
    if p.len() > 0 {
        lemma_clean_fixed(p.drop_last());
        assert(proper_segment(p[p.len() - 1]));
        assert(p.drop_last().push(p.last()) =~= p);
    }
}

proof fn lemma_clean_proper(p: Seq<Seq<char>>)
    requires
        forall|i: int| 0 <= i < p.len() ==> !(#[trigger] p[i]).contains('/'),
    ensures
        forall|i: int|
            0 <= i < clean_segments(p).len() ==> proper_segment(#[trigger] clean_segments(p)[i]),
    decreases p.len(),
{
    if p.len() > 0 {
        lemma_clean_proper(p.drop_last());
        let t = trimmed(p.last());
        assert(!p[p.len() - 1].contains('/'));
        lemma_trimmed_idempotent(p.last());
        if t.contains('/') {
            lemma_trimmed_contains(p.last(), '/');
        }
        let init = clean_segments(p.drop_last());
        assert forall|i: int| 0 <= i < clean_segments(p).len() implies proper_segment(
            #[trigger] clean_segments(p)[i],
        ) by {
            if i < init.len() {
                assert(clean_segments(p)[i] == init[i]);
            }
        }
    }
}

proof fn lemma_join_first(p: Seq<Seq<char>>, sep: Seq<char>)
    requires
        p.len() >= 1,
        p[0].len() > 0,
    ensures
        join_with(p, sep).len() > 0,
        join_with(p, sep)[0] == p[0][0],
    decreases p.len(),
{
    if p.len() > 1 {
        lemma_join_first(p.drop_last(), sep);
    }
}

/// The pieces of a normal prefix: its segments, then the empty piece after
/// the final `/`.
proof fn lemma_split_normal(c: Seq<Seq<char>>)
    requires
        c.len() >= 1,
        forall|i: int| 0 <= i < c.len() ==> proper_segment(#[trigger] c[i]),
    ensures
        split_on(join_with(c, seq!['/']).push('/'), '/') == c.push(Seq::empty()),
{
    let j = join_with(c, seq!['/']);
    lemma_split_append(j, Seq::empty(), '/');
    assert(j + seq!['/'] + Seq::<char>::empty() =~= j.push('/'));
    lemma_split_join(c, '/');
    assert(split_on(Seq::<char>::empty(), '/') =~= seq![Seq::<char>::empty()]);
    assert(c + seq![Seq::<char>::empty()] =~= c.push(Seq::empty()));
}

proof fn lemma_clean_push_empty(c: Seq<Seq<char>>)
    ensures
        clean_segments(c.push(Seq::empty())) == clean_segments(c),
{
    assert(c.push(Seq::empty()).drop_last() =~= c);
    assert(trimmed(Seq::<char>::empty()) =~= Seq::<char>::empty());
}

/// The meaningful segments of a string, and the form of its normalisation.
proof fn lemma_normalized_parts(s: Seq<char>) -> (c: Seq<Seq<char>>)
    ensures
        c == clean_segments(split_on(s, '/')),
        forall|i: int| 0 <= i < c.len() ==> proper_segment(#[trigger] c[i]),
        c.len() == 0 ==> normalized_prefix(s) == Seq::<char>::empty(),
        c.len() > 0 ==> normalized_prefix(s) == join_with(c, seq!['/']).push('/'),
{
    lemma_split_pieces(s, '/');
    let c = clean_segments(split_on(s, '/'));
    lemma_clean_proper(split_on(s, '/'));
    if c.len() > 0 {
        assert(proper_segment(c[0]));
        lemma_join_first(c, seq!['/']);
    }
    c
}

/// Normalising a normal prefix changes nothing.
pub proof fn law_normalize_prefix_idempotent(s: Seq<char>)
    ensures
        normalized_prefix(normalized_prefix(s)) == normalized_prefix(s),
{
    let c = lemma_normalized_parts(s);
    let n = normalized_prefix(s);
    if c.len() == 0 {
        let e = Seq::<char>::empty();
        assert(split_on(e, '/') =~= seq![e]);
        lemma_clean_push_empty(Seq::<Seq<char>>::empty());
        assert(seq![e] =~= Seq::<Seq<char>>::empty().push(e));
        assert(clean_segments(Seq::<Seq<char>>::empty()) =~= Seq::<Seq<char>>::empty());
    } else {
        lemma_split_normal(c);
        lemma_clean_push_empty(c);
        lemma_clean_fixed(c);
    }
}

proof fn lemma_no_repeated_slash(c: Seq<Seq<char>>)
    requires
        c.len() >= 1,
        forall|i: int| 0 <= i < c.len() ==> (#[trigger] c[i]).len() > 0 && !c[i].contains('/'),
    ensures
        !has_repeated(join_with(c, seq!['/']).push('/'), '/'),
    decreases c.len(),
{
    let last = c.last();
    assert(c[c.len() - 1].len() > 0);
    let b = last.push('/');
    assert(!has_repeated(b, '/')) by {
        assert forall|i: int| 0 <= i && i + 1 < b.len() implies !(#[trigger] b[i] == '/' && b[i
            + 1] == '/') by {
            assert(b[i] == last[i]);
            if b[i] == '/' {
                assert(last.contains('/'));
            }
        }
    }
    if c.len() == 1 {
        assert(join_with(c, seq!['/']) == c[0]);
    } else {
        let init = c.drop_last();
        lemma_no_repeated_slash(init);
        let a = join_with(init, seq!['/']).push('/');
        let s = join_with(c, seq!['/']).push('/');
        assert(s =~= a + b);
        assert(b[0] != '/') by {
            if b[0] == '/' {
                assert(last[0] == '/');
                assert(last.contains('/'));
            }
        }
        assert forall|i: int| 0 <= i && i + 1 < s.len() implies !(#[trigger] s[i] == '/' && s[i
            + 1] == '/') by {
            if i + 1 < a.len() {
                assert(s[i] == a[i] && s[i + 1] == a[i + 1]);
            } else if i >= a.len() {
                assert(s[i] == b[i - a.len()] && s[i + 1] == b[i + 1 - a.len()]);
            } else {
                assert(s[i + 1] == b[0]);
            }
        }
    }
}

proof fn lemma_segment_error_none(p: Seq<Seq<char>>)
    requires
        forall|i: int| 0 <= i < p.len() ==> proper_segment(#[trigger] p[i]),
    ensures
        segment_error(p) is None,
    decreases p.len(),
{
    if p.len() > 0 {
        lemma_segment_error_none(p.drop_last());
        assert(proper_segment(p[p.len() - 1]));
    }
}

/// A normal prefix without a backslash passes the upload-path check as it is.
pub proof fn law_normal_prefix_is_valid_upload_path(s: Seq<char>)
    requires
        !normalized_prefix(s).contains('\\'),
    ensures
        upload_path_outcome(normalized_prefix(s)) == Ok::<Seq<char>, UploadPathError>(
            normalized_prefix(s),
        ),
{
    let c = lemma_normalized_parts(s);
    let n = normalized_prefix(s);
    if c.len() == 0 {
        lemma_trimmed_fixed(n);
    } else {
        lemma_normal_prefix_checks(c);
        lemma_split_normal(c);
        assert(segment_error(split_on(n, '/')) is None) by {
            lemma_segment_error_none(c);
            assert(c.push(Seq::empty()).drop_last() =~= c);
        }
    }
}

proof fn lemma_normal_prefix_checks(c: Seq<Seq<char>>)
    requires
        c.len() >= 1,
        forall|i: int| 0 <= i < c.len() ==> proper_segment(#[trigger] c[i]),
    ensures
        ({
            let n = join_with(c, seq!['/']).push('/');
            &&& trimmed(n) == n
            &&& n.len() > 0
            &&& n[0] != '/'
            &&& n.last() == '/'
            &&& !has_repeated(n, '/')
        }),
{
    let n = join_with(c, seq!['/']).push('/');
    assert(proper_segment(c[0]));
    lemma_join_first(c, seq!['/']);
    lemma_trimmed_shape(c[0]);
    assert(n[0] == c[0][0]);
    assert(n[0] != '/') by {
        if n[0] == '/' {
            assert(c[0].contains('/'));
        }
    }
    lemma_trimmed_fixed(n);
    lemma_no_repeated_slash(c);
}

proof fn lemma_inner_pieces_nonempty(s: Seq<char>, c: char)
    requires
        s.len() > 0,
        s[0] != c,
        !has_repeated(s, c),
    ensures
        forall|i: int| 0 <= i < split_on(s, c).len() - 1 ==> (#[trigger] split_on(s, c)[i]).len() > 0,
    decreases s.len(),
{
    lemma_split_nonempty(s, c);
    if s.len() == 1 {
        assert(s.drop_last() =~= Seq::<char>::empty());
        assert(split_on(s.drop_last(), c) =~= seq![Seq::<char>::empty()]);
        assert(split_on(s, c).len() == 1);
    } else {
        let t = s.drop_last();
        assert(!has_repeated(t, c)) by {
            if has_repeated(t, c) {
                let i = choose|i: int| 0 <= i && i + 1 < t.len() && #[trigger] t[i] == c && t[i + 1] == c;
                assert(s[i] == c);
            }
        }
        lemma_inner_pieces_nonempty(t, c);
        lemma_split_last(t, c);
        let init = split_on(t, c);
        if s.last() == c {
            assert(t.last() != c) by {
                if t.last() == c {
                    assert(s[s.len() - 2] == c);
                    assert(s[s.len() - 1] == c);
                }
            }
            assert forall|i: int| 0 <= i < split_on(s, c).len() - 1 implies (#[trigger] split_on(
                s,
                c,
            )[i]).len() > 0 by {
                assert(split_on(s, c)[i] == init[i]);
            }
        } else {
            assert forall|i: int| 0 <= i < split_on(s, c).len() - 1 implies (#[trigger] split_on(
                s,
                c,
            )[i]).len() > 0 by {
                assert(split_on(s, c)[i] == init[i]);
            }
        }
    }
}

proof fn lemma_segment_error_none_proper(p: Seq<Seq<char>>)
    requires
        segment_error(p) is None,
    ensures
        forall|i: int|
            0 <= i < p.len() && (#[trigger] p[i]).len() > 0 ==> !names_nothing(p[i]) && trimmed(
                p[i],
            ) == p[i],
    decreases p.len(),
{
    if p.len() > 0 {
        lemma_segment_error_none_proper(p.drop_last());
        assert forall|i: int| 0 <= i < p.len() && (#[trigger] p[i]).len() > 0 implies !names_nothing(
            p[i],
        ) && trimmed(p[i]) == p[i] by {
            if i < p.len() - 1 {
                assert(p[i] == p.drop_last()[i]);
            }
        }
    }
}

/// A path the upload check accepts is already a prefix in normal form.
pub proof fn law_valid_upload_path_is_normal(v: Seq<char>, r: Seq<char>)
    requires
        upload_path_outcome(v) == Ok::<Seq<char>, UploadPathError>(r),
    ensures
        normalized_prefix(r) == r,
{
    if r.len() == 0 {
        let e = Seq::<char>::empty();
        assert(r =~= e);
        assert(split_on(e, '/') =~= seq![e]);
        lemma_clean_push_empty(Seq::<Seq<char>>::empty());
        assert(seq![e] =~= Seq::<Seq<char>>::empty().push(e));
        assert(clean_segments(Seq::<Seq<char>>::empty()) =~= Seq::<Seq<char>>::empty());
    } else {
        let p = split_on(r, '/');
        lemma_split_last(r, '/');
        lemma_split_pieces(r, '/');
        lemma_inner_pieces_nonempty(r, '/');
        lemma_segment_error_none_proper(p);
        lemma_join_split(r, '/');
        let inner = p.drop_last();
        assert(p == inner.push(Seq::empty())) by {
            assert(p.last() =~= Seq::<char>::empty());
            assert(inner.push(Seq::<char>::empty()) =~= p);
        }
        assert(r.len() >= 2) by {
            if r.len() == 1 {
                assert(r[0] == r.last());
            }
        }
        assert(inner.len() >= 1) by {
            lemma_split_nonempty(r.drop_last(), '/');
        }
        assert forall|i: int| 0 <= i < inner.len() implies proper_segment(#[trigger] inner[i]) by {
            assert(inner[i] == p[i]);
        }
        lemma_clean_push_empty(inner);
        lemma_clean_fixed(inner);
        assert(join_with(p, seq!['/']) == join_with(inner, seq!['/']) + seq!['/'] + Seq::<
            char,
        >::empty()) by {
            assert(p.drop_last() =~= inner);
        }
        assert(join_with(inner, seq!['/']).push('/') =~= r);
        assert(join_with(inner, seq!['/']).len() > 0);
    }
}

/// The number of characters in all the pieces together.
pub open spec fn total_len(parts: Seq<Seq<char>>) -> int
    decreases parts.len(),
{
    if parts.len() == 0 {
        0
    } else {
        total_len(parts.drop_last()) + parts.last().len()
    }
}

proof fn lemma_join_len(parts: Seq<Seq<char>>, c: char)
    requires
        parts.len() >= 1,
    ensures
        join_with(parts, seq![c]).len() == total_len(parts) + parts.len() - 1,
    decreases parts.len(),
{
    if parts.len() == 1 {
        assert(parts.drop_last().len() == 0);
        assert(total_len(parts) == total_len(parts.drop_last()) + parts.last().len());
    } else {
        lemma_join_len(parts.drop_last(), c);
        assert(join_with(parts, seq![c]) == join_with(parts.drop_last(), seq![c]) + seq![c]
            + parts.last());
        assert(total_len(parts) == total_len(parts.drop_last()) + parts.last().len());
    }
}

proof fn lemma_total_len_take(parts: Seq<Seq<char>>, d: int)
    requires
        0 <= d <= parts.len(),
    ensures
        0 <= total_len(parts.take(d)) <= total_len(parts),
    decreases parts.len() - d,
{
    if d < parts.len() {
        lemma_total_len_take(parts, d + 1);
        assert(parts.take(d + 1).drop_last() =~= parts.take(d));
        lemma_total_len_nonneg(parts.take(d));
    } else {
        assert(parts.take(d) =~= parts);
        lemma_total_len_nonneg(parts);
    }
}

proof fn lemma_total_len_nonneg(parts: Seq<Seq<char>>)
    ensures
        total_len(parts) >= 0,
    decreases parts.len(),
{
    if parts.len() > 0 {
        lemma_total_len_nonneg(parts.drop_last());
    }
}

/// Leaving out the empty pieces keeps the pieces without `/`, each not
/// empty, no more of them, and as many characters.
proof fn lemma_non_empty_shape(parts: Seq<Seq<char>>)
    requires
        forall|i: int| 0 <= i < parts.len() ==> !(#[trigger] parts[i]).contains('/'),
    ensures
        non_empty(parts).len() <= parts.len(),
        parts.len() > 0 && parts.last().len() == 0 ==> non_empty(parts).len() <= parts.len() - 1,
        total_len(non_empty(parts)) == total_len(parts),
        forall|i: int|
            0 <= i < non_empty(parts).len() ==> (#[trigger] non_empty(parts)[i]).len() > 0
                && !non_empty(parts)[i].contains('/'),
    decreases parts.len(),
{
    if parts.len() > 0 {
        let init = parts.drop_last();
        assert forall|i: int| 0 <= i < init.len() implies !(#[trigger] init[i]).contains('/') by {
            assert(init[i] == parts[i]);
        }
        lemma_non_empty_shape(init);
        assert(!parts[parts.len() - 1].contains('/'));
        let ne = non_empty(parts);
        if parts.last().len() > 0 {
            assert(ne.drop_last() =~= non_empty(init));
            assert forall|i: int| 0 <= i < ne.len() implies (#[trigger] ne[i]).len() > 0
                && !ne[i].contains('/') by {
                if i < ne.len() - 1 {
                    assert(ne[i] == non_empty(init)[i]);
                }
            }
        }
    }
}

/// Every directory prefix of a key ends with `/`, does not start with `/`,
/// holds no `//`, and is no longer than the trimmed key.
pub proof fn law_key_prefixes_shape(key: Seq<char>, p: Seq<char>)
    requires
        key_prefixes(key).contains(p),
    ensures
        p.len() > 0,
        p.last() == '/',
        p[0] != '/',
        !has_repeated(p, '/'),
        p.len() <= trimmed(key).len(),
{
    let k = trimmed(key);
    let pieces = split_on(k, '/');
    let segs = key_segments(key);
    let d = choose|d: int| 1 <= d <= key_depth(key) && p == #[trigger] key_prefix_at(key, d);
    lemma_split_pieces(k, '/');
    lemma_split_last(k, '/');
    lemma_non_empty_shape(pieces);
    assert(k.len() > 0 && segs.len() > 0);
    assert(d <= segs.len());
    let first = segs.take(d);
    assert forall|i: int| 0 <= i < first.len() implies (#[trigger] first[i]).len() > 0
        && !first[i].contains('/') by {
        assert(first[i] == segs[i]);
    }
    lemma_no_repeated_slash(first);
    lemma_join_first(first, seq!['/']);
    assert(p[0] == segs[0][0]);
    assert(p[0] != '/') by {
        if p[0] == '/' {
            assert(segs[0].contains('/'));
        }
    }
    lemma_join_len(first, '/');
    lemma_total_len_take(segs, d);
    lemma_join_split(k, '/');
    lemma_join_len(pieces, '/');
    assert(d <= pieces.len() - 1);
}

/// Exactly the empty segment, `.` and `..` name nothing; any other segment,
/// dots inside it or not (`v1.2`, `www.example.com`), names a directory.
pub proof fn law_only_dot_segments_name_nothing(t: Seq<char>)
    ensures
        names_nothing(t) <==> (t.len() == 0 || t == seq!['.'] || t == seq!['.', '.']),
{
}

/// Normalisation keeps every segment other than the empty one, `.` and
/// `..`: segments that are trimmed and hold no `/` come back joined by `/`
/// and ended by `/`, whatever other characters (dots among them) they hold;
/// and, without a backslash, that form passes the upload-path check as it is.
pub proof fn law_normalize_keeps_named_segments(c: Seq<Seq<char>>)
    requires
        c.len() >= 1,
        forall|i: int|
            0 <= i < c.len() ==> (#[trigger] c[i]).len() > 0 && c[i] != seq!['.'] && c[i] != seq![
                '.',
                '.',
            ] && trimmed(c[i]) == c[i] && !c[i].contains('/'),
    ensures
        normalized_prefix(join_with(c, seq!['/'])) == join_with(c, seq!['/']).push('/'),
        !join_with(c, seq!['/']).contains('\\') ==> upload_path_outcome(
            join_with(c, seq!['/']).push('/'),
        ) == Ok::<Seq<char>, UploadPathError>(join_with(c, seq!['/']).push('/')),
{
    assert forall|i: int| 0 <= i < c.len() implies proper_segment(#[trigger] c[i]) by {
        law_only_dot_segments_name_nothing(c[i]);
    }
    assert forall|i: int| 0 <= i < c.len() implies !(#[trigger] c[i]).contains('/') by {
        assert(proper_segment(c[i]));
    }
    lemma_split_join(c, '/');
    lemma_clean_fixed(c);
    assert(proper_segment(c[0]));
    lemma_join_first(c, seq!['/']);
    let n = join_with(c, seq!['/']).push('/');
    if !join_with(c, seq!['/']).contains('\\') {
        assert(!n.contains('\\')) by {
            if n.contains('\\') {
                let k = choose|k: int| 0 <= k < n.len() && n[k] == '\\';
                assert(join_with(c, seq!['/'])[k] == '\\');
            }
        }
        lemma_normal_prefix_checks(c);
        lemma_split_normal(c);
        lemma_segment_error_none(c);
        assert(c.push(Seq::empty()).drop_last() =~= c);
        assert(segment_error(split_on(n, '/')) is None);
    }
}

/// A single named segment, such as `v1.2`, normalises to itself and `/`.
pub proof fn law_normalize_single_named_segment(t: Seq<char>)
    requires
        t.len() > 0,
        t != seq!['.'],
        t != seq!['.', '.'],
        trimmed(t) == t,
        !t.contains('/'),
    ensures
        normalized_prefix(t) == t.push('/'),
{
    law_normalize_keeps_named_segments(seq![t]);
    assert(join_with(seq![t], seq!['/']) == t);
}

} // verus!
