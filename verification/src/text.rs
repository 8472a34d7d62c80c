//! Character-level string operations with their mathematical models.

use vstd::prelude::*;

verus! {

/// The Unicode `White_Space` property: the characters that
/// `char::is_whitespace` accepts and `str::trim` removes.
pub open spec fn is_white_space(c: char) -> bool {
    let v = c as u32;
    ||| 0x09 <= v && v <= 0x0d
    ||| v == 0x20
    ||| v == 0x85
    ||| v == 0xa0
    ||| v == 0x1680
    ||| 0x2000 <= v && v <= 0x200a
    ||| v == 0x2028
    ||| v == 0x2029
    ||| v == 0x202f
    ||| v == 0x205f
    ||| v == 0x3000
}

/// `s` with its leading white space removed.
pub open spec fn trim_start(s: Seq<char>) -> Seq<char>
    decreases s.len(),
{
    if s.len() > 0 && is_white_space(s[0]) {
        trim_start(s.drop_first())
    } else {
        s
    }
}

/// `s` with its trailing white space removed.
pub open spec fn trim_end(s: Seq<char>) -> Seq<char>
    decreases s.len(),
{
    if s.len() > 0 && is_white_space(s.last()) {
        trim_end(s.drop_last())
    } else {
        s
    }
}

/// `s` with white space removed at both ends, as `str::trim` does.
pub open spec fn trimmed(s: Seq<char>) -> Seq<char> {
    trim_end(trim_start(s))
}

pub fn white_space(c: char) -> (r: bool)
    ensures
        r == is_white_space(c),
{
    let v = c as u32;
    (0x09 <= v && v <= 0x0d) || v == 0x20 || v == 0x85 || v == 0xa0 || v == 0x1680 || (0x2000
        <= v && v <= 0x200a) || v == 0x2028 || v == 0x2029 || v == 0x202f || v == 0x205f || v
        == 0x3000
}

/// The characters of `s`, in order.
pub fn chars_of(s: &str) -> (r: Vec<char>)
    ensures
        r@ == s@,
{
    broadcast use vstd::string::group_string_axioms;
    let mut r: Vec<char> = Vec::new();
    for c in it: s.chars()
        invariant
            it.seq() == s@,
            r@ == it.seq().take(it.index() as int),
    {
        r.push(c);
        assert(r@ =~= it.seq().take(it.index() + 1));
    }
    assert(r@ =~= s@);
    r
}

/// The characters of `s` from `from` up to `to`, as an owned string.
pub fn substring(s: &str, from: usize, to: usize) -> (r: String)
    requires
        from <= to <= s@.len(),
    ensures
        r@ == s@.subrange(from as int, to as int),
{
    s.substring_char(from, to).to_owned()
}

proof fn lemma_trim_start_skip(s: Seq<char>, i: int)
    requires
        0 <= i <= s.len(),
        forall|k: int| 0 <= k < i ==> is_white_space(#[trigger] s[k]),
    ensures
        trim_start(s) == trim_start(s.subrange(i, s.len() as int)),
    decreases i,
{
    if i > 0 {
        assert(s.drop_first() =~= s.subrange(1, s.len() as int));
        let t = s.drop_first();
        assert forall|k: int| 0 <= k < i - 1 implies is_white_space(#[trigger] t[k]) by {
            assert(t[k] == s[k + 1]);
        }
        lemma_trim_start_skip(t, i - 1);
        assert(t.subrange(i - 1, t.len() as int) =~= s.subrange(i, s.len() as int));
    } else {
        assert(s.subrange(0, s.len() as int) =~= s);
    }
}

proof fn lemma_trim_end_skip(s: Seq<char>, j: int)
    requires
        0 <= j <= s.len(),
        forall|k: int| j <= k < s.len() ==> is_white_space(#[trigger] s[k]),
    ensures
        trim_end(s) == trim_end(s.subrange(0, j)),
    decreases s.len() - j,
{
    if j < s.len() {
        let t = s.drop_last();
        assert forall|k: int| j <= k < t.len() implies is_white_space(#[trigger] t[k]) by {
            assert(t[k] == s[k]);
        }
        lemma_trim_end_skip(t, j);
        assert(t.subrange(0, j) =~= s.subrange(0, j));
    } else {
        assert(s.subrange(0, j) =~= s);
    }
}

/// `s` without leading and trailing white space (`str::trim`).
pub fn trim(s: &str) -> (r: String)
    ensures
        r@ == trimmed(s@),
{
    let cs = chars_of(s);
    let n = cs.len();
    let mut i: usize = 0;
    while i < n && white_space(cs[i])
        invariant
            n == s@.len(),
            cs@ == s@,
            i <= n,
            forall|k: int| 0 <= k < i ==> is_white_space(#[trigger] s@[k]),
        decreases n - i,
    {
        i = i + 1;
    }
    proof {
        lemma_trim_start_skip(s@, i as int);
    }
    let ghost rest = s@.subrange(i as int, n as int);
    assert(trim_start(rest) == rest) by {
        if rest.len() > 0 {
            assert(rest[0] == s@[i as int]);
        }
    }
    let mut j: usize = n;
    while j > i && white_space(cs[j - 1])
        invariant
            n == s@.len(),
            cs@ == s@,
            i <= j <= n,
            rest == s@.subrange(i as int, n as int),
            forall|k: int| j <= k < n ==> is_white_space(#[trigger] s@[k]),
        decreases j - i,
    {
        j = j - 1;
    }
    proof {
        assert forall|k: int| j - i <= k < rest.len() implies is_white_space(#[trigger] rest[k]) by {
            assert(rest[k] == s@[k + i]);
        }
        lemma_trim_end_skip(rest, j - i);
        let kept = rest.subrange(0, j - i);
        assert(kept =~= s@.subrange(i as int, j as int));
        if kept.len() > 0 {
            assert(kept.last() == s@[j - 1]);
        }
        assert(trim_end(kept) == kept);
    }
    substring(s, i, j)
}

/// The pieces of `s` between the occurrences of `sep`, as `str::split`
/// yields them: there is always one more piece than separators.
pub open spec fn split_on(s: Seq<char>, sep: char) -> Seq<Seq<char>>
    decreases s.len(),
{
    if s.len() == 0 {
        seq![Seq::empty()]
    } else {
        let init = split_on(s.drop_last(), sep);
        if s.last() == sep {
            init.push(Seq::empty())
        } else {
            init.update(init.len() - 1, init.last().push(s.last()))
        }
    }
}

/// The pieces joined together with `sep` between neighbours (`[T]::join`).
pub open spec fn join_with(parts: Seq<Seq<char>>, sep: Seq<char>) -> Seq<char>
    decreases parts.len(),
{
    if parts.len() == 0 {
        Seq::empty()
    } else if parts.len() == 1 {
        parts[0]
    } else {
        join_with(parts.drop_last(), sep) + sep + parts.last()
    }
}

pub proof fn lemma_split_nonempty(s: Seq<char>, sep: char)
    ensures
        split_on(s, sep).len() >= 1,
    decreases s.len(),
{
    if s.len() > 0 {
        lemma_split_nonempty(s.drop_last(), sep);
    }
}

/// The pieces of `s` between the occurrences of `sep` (`str::split`).
pub fn split_chars(s: &str, sep: char) -> (r: Vec<String>)
    ensures
        r.deep_view() == split_on(s@, sep),
{
    let cs = chars_of(s);
    let n = cs.len();
    let mut r: Vec<String> = Vec::new();
    let mut start: usize = 0;
    let mut i: usize = 0;
    assert(s@.subrange(0, 0) =~= Seq::<char>::empty());
    assert(r.deep_view().push(s@.subrange(0, 0)) =~= split_on(s@.subrange(0, 0), sep));
    while i < n
        invariant
            n == s@.len(),
            cs@ == s@,
            start <= i <= n,
            split_on(s@.subrange(0, i as int), sep) == r.deep_view().push(
                s@.subrange(start as int, i as int),
            ),
        decreases n - i,
    {
        let ghost before = r.deep_view();
        let ghost prefix = s@.subrange(0, i + 1);
        assert(prefix.drop_last() =~= s@.subrange(0, i as int));
        assert(prefix.last() == s@[i as int]);
        if cs[i] == sep {
            let ghost old_start = start;
            let piece = substring(s, start, i);
            r.push(piece);
            start = i + 1;
            assert(r.deep_view() =~= before.push(s@.subrange(old_start as int, i as int)));
            assert(split_on(prefix, sep) == split_on(prefix.drop_last(), sep).push(Seq::empty()));
            assert(s@.subrange(start as int, i + 1) =~= Seq::<char>::empty());
            assert(r.deep_view().push(s@.subrange(start as int, i + 1)) =~= split_on(prefix, sep));
        } else {
            assert(s@.subrange(start as int, i + 1) =~= s@.subrange(start as int, i as int).push(s@[i as int]));
            assert(before.push(s@.subrange(start as int, i + 1)) =~= split_on(prefix, sep));
        }
        i = i + 1;
    }
    assert(s@.subrange(0, n as int) =~= s@);
    let last = substring(s, start, n);
    r.push(last);
    r
}

/// The pieces joined together with `sep` between neighbours (`[String]::join`).
pub fn join_strings(parts: &Vec<String>, sep: &str) -> (r: String)
    ensures
        r@ == join_with(parts.deep_view(), sep@),
{
    let mut r = String::new();
    let n = parts.len();
    let mut i: usize = 0;
    while i < n
        invariant
            n == parts.len(),
            i <= n,
            r@ == join_with(parts.deep_view().take(i as int), sep@),
        decreases n - i,
    {
        let ghost done = parts.deep_view().take(i as int);
        let ghost next = parts.deep_view().take(i + 1);
        assert(next.drop_last() =~= done);
        assert(next.last() == parts[i as int]@);
        if i > 0 {
            r.append(sep);
        } else {
            assert(done.len() == 0);
        }
        r.append(parts[i].as_str());
        i = i + 1;
    }
    assert(parts.deep_view().take(n as int) =~= parts.deep_view());
    r
}

/// Whether `s` begins with `p`.
pub open spec fn starts_with(s: Seq<char>, p: Seq<char>) -> bool {
    p.len() <= s.len() && s.subrange(0, p.len() as int) == p
}

/// Whether `s` begins with `p` (`str::starts_with`).
pub fn has_prefix(s: &str, p: &str) -> (r: bool)
    ensures
        r == starts_with(s@, p@),
{
    let a = chars_of(s);
    let b = chars_of(p);
    if b.len() > a.len() {
        return false;
    }
    let mut i: usize = 0;
    while i < b.len()
        invariant
            b.len() <= a.len(),
            a@ == s@,
            b@ == p@,
            i <= b.len(),
            forall|k: int| 0 <= k < i ==> a@[k] == b@[k],
        decreases b.len() - i,
    {
        if a[i] != b[i] {
            assert(s@.subrange(0, p@.len() as int)[i as int] != p@[i as int]);
            return false;
        }
        i = i + 1;
    }
    assert(s@.subrange(0, p@.len() as int) =~= p@);
    true
}

/// Removing leading white space leaves a suffix.
pub proof fn lemma_trim_start_is_suffix(s: Seq<char>)
    ensures
        trim_start(s).len() <= s.len(),
        trim_start(s) == s.subrange(s.len() - trim_start(s).len(), s.len() as int),
        trim_start(s).len() > 0 ==> !is_white_space(trim_start(s)[0]),
    decreases s.len(),
{
    if s.len() > 0 && is_white_space(s[0]) {
        lemma_trim_start_is_suffix(s.drop_first());
        let t = trim_start(s.drop_first());
        assert(s.drop_first().subrange(s.len() - 1 - t.len(), s.len() - 1) =~= s.subrange(
            s.len() - t.len(),
            s.len() as int,
        ));
    } else {
        assert(s.subrange(0, s.len() as int) =~= s);
    }
}

/// Removing trailing white space leaves a prefix.
pub proof fn lemma_trim_end_is_prefix(s: Seq<char>)
    ensures
        trim_end(s).len() <= s.len(),
        trim_end(s) == s.subrange(0, trim_end(s).len() as int),
        trim_end(s).len() > 0 ==> !is_white_space(trim_end(s).last()),
    decreases s.len(),
{
    if s.len() > 0 && is_white_space(s.last()) {
        lemma_trim_end_is_prefix(s.drop_last());
        let t = trim_end(s.drop_last());
        assert(s.drop_last().subrange(0, t.len() as int) =~= s.subrange(0, t.len() as int));
    } else {
        assert(s.subrange(0, s.len() as int) =~= s);
    }
}

/// A trimmed string is a piece of the untrimmed one whose ends are not white
/// space.
pub proof fn lemma_trimmed_shape(s: Seq<char>) -> (k: int)
    ensures
        trimmed(s).len() <= s.len(),
        0 <= k && k + trimmed(s).len() <= s.len(),
        trimmed(s) == s.subrange(k, k + trimmed(s).len()),
        trimmed(s).len() > 0 ==> !is_white_space(trimmed(s)[0]) && !is_white_space(
            trimmed(s).last(),
        ),
{
    lemma_trim_start_is_suffix(s);
    let a = trim_start(s);
    lemma_trim_end_is_prefix(a);
    let b = trim_end(a);
    let k = s.len() - a.len();
    assert(b =~= s.subrange(k, k + b.len()));
    if b.len() > 0 {
        assert(b[0] == a[0]);
    }
    k
}

/// A string whose ends are not white space is its own trimmed form.
pub proof fn lemma_trimmed_fixed(s: Seq<char>)
    requires
        s.len() > 0 ==> !is_white_space(s[0]) && !is_white_space(s.last()),
    ensures
        trimmed(s) == s,
{
}

/// Trimming twice is trimming once.
pub proof fn lemma_trimmed_idempotent(s: Seq<char>)
    ensures
        trimmed(trimmed(s)) == trimmed(s),
{
    lemma_trimmed_shape(s);
    lemma_trimmed_fixed(trimmed(s));
}

/// What the trimmed string holds, the string holds.
pub proof fn lemma_trimmed_contains(s: Seq<char>, c: char)
    requires
        trimmed(s).contains(c),
    ensures
        s.contains(c),
{
    let k = lemma_trimmed_shape(s);
    let t = trimmed(s);
    let i = choose|i: int| 0 <= i < t.len() && t[i] == c;
    assert(s[k + i] == c);
}

/// The last piece is empty exactly when the string is empty or ends with
/// the separator.
pub proof fn lemma_split_last(s: Seq<char>, c: char)
    ensures
        split_on(s, c).len() >= 1,
        (split_on(s, c).last().len() == 0) == (s.len() == 0 || s.last() == c),
    decreases s.len(),
{
    lemma_split_nonempty(s, c);
    if s.len() > 0 {
        lemma_split_nonempty(s.drop_last(), c);
    }
}

/// Splitting at a separator splits the two sides apart.
pub proof fn lemma_split_append(a: Seq<char>, b: Seq<char>, c: char)
    ensures
        split_on(a + seq![c] + b, c) == split_on(a, c) + split_on(b, c),
    decreases b.len(),
{
    let s = a + seq![c] + b;
    lemma_split_nonempty(a, c);
    if b.len() == 0 {
        assert(s.drop_last() =~= a);
        assert(split_on(a, c) + split_on(b, c) =~= split_on(a, c).push(Seq::empty()));
    } else {
        let b2 = b.drop_last();
        assert(s.drop_last() =~= a + seq![c] + b2);
        lemma_split_append(a, b2, c);
        lemma_split_nonempty(b2, c);
        let init = split_on(s.drop_last(), c);
        assert(init == split_on(a, c) + split_on(b2, c));
        assert(s.last() == b.last());
        if b.last() == c {
            assert(split_on(s, c) =~= split_on(a, c) + split_on(b, c));
        } else {
            let pb = split_on(b2, c);
            assert(split_on(b, c) == pb.update(pb.len() - 1, pb.last().push(b.last())));
            assert(init.last() == pb.last());
            assert(split_on(s, c) =~= split_on(a, c) + split_on(b, c));
        }
    }
}

/// A string without the separator is a single piece.
pub proof fn lemma_split_single(s: Seq<char>, c: char)
    requires
        !s.contains(c),
    ensures
        split_on(s, c) == seq![s],
    decreases s.len(),
{
    if s.len() > 0 {
        let t = s.drop_last();
        assert(!t.contains(c)) by {
            if t.contains(c) {
                let i = choose|i: int| 0 <= i < t.len() && t[i] == c;
                assert(s[i] == c);
            }
        }
        lemma_split_single(t, c);
        assert(s.last() != c) by {
            assert(s[s.len() - 1] == s.last());
        }
        assert(t.push(s.last()) =~= s);
        assert(seq![t].update(0, t.push(s.last())) =~= seq![s]);
    } else {
        assert(s =~= Seq::<char>::empty());
    }
}

/// No piece holds the separator.
pub proof fn lemma_split_pieces(s: Seq<char>, c: char)
    ensures
        forall|i: int| 0 <= i < split_on(s, c).len() ==> !(#[trigger] split_on(s, c)[i]).contains(c),
    decreases s.len(),
{
    lemma_split_nonempty(s, c);
    if s.len() > 0 {
        let t = s.drop_last();
        lemma_split_pieces(t, c);
        lemma_split_nonempty(t, c);
        let init = split_on(t, c);
        if s.last() != c {
            let last = init.last().push(s.last());
            assert(!last.contains(c)) by {
                if last.contains(c) {
                    let j = choose|j: int| 0 <= j < last.len() && last[j] == c;
                    if j < init.last().len() {
                        assert(init[init.len() - 1][j] == c);
                    }
                }
            }
            assert forall|i: int| 0 <= i < split_on(s, c).len() implies !(
            #[trigger] split_on(s, c)[i]).contains(c) by {
                if i < init.len() - 1 {
                    assert(split_on(s, c)[i] == init[i]);
                }
            }
        } else {
            assert forall|i: int| 0 <= i < split_on(s, c).len() implies !(
            #[trigger] split_on(s, c)[i]).contains(c) by {
                if i < init.len() {
                    assert(split_on(s, c)[i] == init[i]);
                } else {
                    assert(split_on(s, c)[i] =~= Seq::<char>::empty());
                }
            }
        }
    }
}

/// Joining the pieces back gives the string.
pub proof fn lemma_join_split(s: Seq<char>, c: char)
    ensures
        join_with(split_on(s, c), seq![c]) == s,
    decreases s.len(),
{
    if s.len() == 0 {
        assert(split_on(s, c) =~= seq![Seq::<char>::empty()]);
        assert(s =~= Seq::<char>::empty());
    } else {
        let t = s.drop_last();
        lemma_join_split(t, c);
        lemma_split_nonempty(t, c);
        let init = split_on(t, c);
        if s.last() == c {
            let p = init.push(Seq::empty());
            assert(p.drop_last() =~= init);
            assert(join_with(p, seq![c]) =~= s);
        } else {
            let p = init.update(init.len() - 1, init.last().push(s.last()));
            assert(t.push(s.last()) =~= s);
            if init.len() == 1 {
                assert(p[0] == init[0].push(s.last()));
                assert(join_with(init, seq![c]) == init[0]);
                assert(join_with(p, seq![c]) == p[0]);
            } else {
                assert(p.drop_last() =~= init.drop_last());
                assert(join_with(init, seq![c]) == join_with(init.drop_last(), seq![c]) + seq![c]
                    + init.last());
                assert(join_with(p, seq![c]) =~= s);
            }
        }
    }
}

/// Splitting joined pieces that hold no separator gives them back.
pub proof fn lemma_split_join(parts: Seq<Seq<char>>, c: char)
    requires
        parts.len() >= 1,
        forall|i: int| 0 <= i < parts.len() ==> !(#[trigger] parts[i]).contains(c),
    ensures
        split_on(join_with(parts, seq![c]), c) == parts,
    decreases parts.len(),
{
    if parts.len() == 1 {
        lemma_split_single(parts[0], c);
        assert(seq![parts[0]] =~= parts);
    } else {
        let init = parts.drop_last();
        lemma_split_join(init, c);
        lemma_split_single(parts.last(), c);
        lemma_split_append(join_with(init, seq![c]), parts.last(), c);
        assert(init + seq![parts.last()] =~= parts);
    }
}

/// Every character of every piece occurs in the string.
pub proof fn lemma_split_piece_chars(s: Seq<char>, c: char)
    ensures
        forall|j: int, k: int|
            0 <= j < split_on(s, c).len() && 0 <= k < split_on(s, c)[j].len() ==> s.contains(
                #[trigger] split_on(s, c)[j][k],
            ),
    decreases s.len(),
{
    lemma_split_nonempty(s, c);
    if s.len() > 0 {
        let t = s.drop_last();
        lemma_split_piece_chars(t, c);
        lemma_split_nonempty(t, c);
        let init = split_on(t, c);
        assert forall|j: int, k: int|
            0 <= j < split_on(s, c).len() && 0 <= k < split_on(s, c)[j].len() implies s.contains(
            #[trigger] split_on(s, c)[j][k],
        ) by {
            let x = split_on(s, c)[j][k];
            if s.last() == c {
                if j < init.len() {
                    assert(split_on(s, c)[j] == init[j]);
                    assert(t.contains(x));
                    let m = choose|m: int| 0 <= m < t.len() && t[m] == x;
                    assert(s[m] == x);
                }
            } else {
                if j < init.len() - 1 {
                    assert(split_on(s, c)[j] == init[j]);
                    assert(t.contains(x));
                    let m = choose|m: int| 0 <= m < t.len() && t[m] == x;
                    assert(s[m] == x);
                } else {
                    assert(split_on(s, c)[j] == init.last().push(s.last()));
                    if k < init.last().len() {
                        assert(init[init.len() - 1][k] == x);
                        assert(t.contains(x));
                        let m = choose|m: int| 0 <= m < t.len() && t[m] == x;
                        assert(s[m] == x);
                    } else {
                        assert(s[s.len() - 1] == x);
                    }
                }
            }
        }
    }
}

} // verus!
