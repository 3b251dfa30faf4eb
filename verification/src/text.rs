use vstd::prelude::*;

verus! {

// Character-sequence utilities shared by the redaction engine, the command
// builder and the env-file codec.  All algorithms work over `Vec<char>` so
// that their contracts speak directly about the `Seq<char>` views of the
// strings they came from.

/// `p` occurs in `t` starting at position `i`.
pub open spec fn occurs_at(t: Seq<char>, p: Seq<char>, i: int) -> bool {
    0 <= i && i + p.len() <= t.len() && t.subrange(i, i + p.len() as int) == p
}

/// `p` occurs somewhere in `t`.
pub open spec fn occurs_in(t: Seq<char>, p: Seq<char>) -> bool {
    exists|i: int| occurs_at(t, p, i)
}

/// Literal replacement of every non-overlapping occurrence of `p` in `t` by
/// `r`, scanning left to right and matching the leftmost occurrence first.
/// An empty pattern is never replaced.
pub open spec fn replace_all_spec(t: Seq<char>, p: Seq<char>, r: Seq<char>) -> Seq<char>
    decreases t.len(),
{
    if p.len() == 0 || t.len() < p.len() {
        t
    } else if t.subrange(0, p.len() as int) == p {
        r + replace_all_spec(t.skip(p.len() as int), p, r)
    } else {
        seq![t[0]] + replace_all_spec(t.skip(1), p, r)
    }
}

/// The characters of `s`, as a vector.
pub fn str_to_chars(s: &str) -> (v: Vec<char>)
    ensures
        v@ == s@,
{
    let n = s.unicode_len();
    let mut v: Vec<char> = Vec::new();
    let mut i: usize = 0;
    while i < n
        invariant
            n == s@.len(),
            i <= n,
            v@ == s@.take(i as int),
        decreases n - i,
    {
        let c = s.get_char(i);
        v.push(c);
        proof {
            assert(s@.take(i + 1) =~= s@.take(i as int).push(s@[i as int]));
        }
        i = i + 1;
    }
    proof {
        assert(s@.take(n as int) =~= s@);
    }
    v
}

/// Relies on `String`'s `FromIterator<char>` implementation: collecting
/// characters yields the string of exactly those characters, in order.
#[verifier::external_body]
pub(crate) fn chars_to_string(v: &Vec<char>) -> (s: String)
    ensures
        s@ == v@,
{
    v.iter().collect()
}

/// Push `src[from..to]` onto the end of `out`.
pub fn append_range(out: &mut Vec<char>, src: &Vec<char>, from: usize, to: usize)
    requires
        from <= to <= src@.len(),
    ensures
        final(out)@ == old(out)@ + src@.subrange(from as int, to as int),
{
    let mut j: usize = from;
    while j < to
        invariant
            from <= j <= to <= src@.len(),
            out@ == old(out)@ + src@.subrange(from as int, j as int),
        decreases to - j,
    {
        let c = src[j];
        out.push(c);
        proof {
            assert(src@.subrange(from as int, j + 1) =~= src@.subrange(
                from as int,
                j as int,
            ).push(src@[j as int]));
        }
        j = j + 1;
    }
}

/// The two vectors hold the same characters.
pub fn chars_eq(a: &Vec<char>, b: &Vec<char>) -> (r: bool)
    ensures
        r == (a@ == b@),
{
    if a.len() != b.len() {
        return false;
    }
    let mut i: usize = 0;
    while i < a.len()
        invariant
            a@.len() == b@.len(),
            i <= a@.len(),
            forall|k: int| 0 <= k < i ==> a@[k] == b@[k],
        decreases a@.len() - i,
    {
        if a[i] != b[i] {
            return false;
        }
        i = i + 1;
    }
    proof {
        assert(a@ =~= b@);
    }
    true
}

/// `t` opens with `p`.
pub fn starts_with_chars(t: &Vec<char>, p: &Vec<char>) -> (r: bool)
    ensures
        r == (t@.len() >= p@.len() && t@.subrange(0, p@.len() as int) == p@),
{
    if p.len() > t.len() {
        return false;
    }
    matches_at(t, p, 0)
}

/// `c` occurs in `v`.
pub fn has_char(v: &Vec<char>, c: char) -> (r: bool)
    ensures
        r == v@.contains(c),
{
    match find_char(v, c) {
        Some(i) => {
            proof {
                assert(v@[i as int] == c);
            }
            true
        },
        None => false,
    }
}

/// `p` matches `t` at position `i`.
pub fn matches_at(t: &Vec<char>, p: &Vec<char>, i: usize) -> (b: bool)
    requires
        i + p@.len() <= t@.len(),
    ensures
        b == (t@.subrange(i as int, i + p@.len()) == p@),
{
    let tl = t.len();
    let mut j: usize = 0;
    while j < p.len()
        invariant
            tl == t@.len(),
            i + p@.len() <= t@.len(),
            j <= p@.len(),
            forall|k: int| 0 <= k < j ==> t@[i + k] == p@[k],
        decreases p@.len() - j,
    {
        if t[i + j] != p[j] {
            proof {
                assert(t@.subrange(i as int, i + p@.len())[j as int] != p@[j as int]);
            }
            return false;
        }
        j = j + 1;
    }
    proof {
        assert(t@.subrange(i as int, i + p@.len()) =~= p@);
    }
    true
}

/// Position of the leftmost occurrence of `p` in `t`, if any.
pub fn find_first(t: &Vec<char>, p: &Vec<char>) -> (r: Option<usize>)
    ensures
        match r {
            Some(i) => occurs_at(t@, p@, i as int) && forall|k: int|
                0 <= k < i ==> !occurs_at(t@, p@, k),
            None => !occurs_in(t@, p@),
        },
{
    if p.len() == 0 {
        proof {
            assert(t@.subrange(0, 0) =~= p@);
        }
        return Some(0);
    }
    if p.len() > t.len() {
        return None;
    }
    let tl = t.len();
    let last = tl - p.len();
    let mut i: usize = 0;
    while i <= last
        invariant
            tl == t@.len(),
            0 < p@.len() <= t@.len(),
            last == t@.len() - p@.len(),
            i <= last + 1,
            forall|k: int| 0 <= k < i ==> !occurs_at(t@, p@, k),
        decreases last + 1 - i,
    {
        if matches_at(t, p, i) {
            return Some(i);
        }
        i = i + 1;
    }
    proof {
        assert(forall|k: int| occurs_at(t@, p@, k) ==> 0 <= k <= last);
    }
    None
}

/// `p` occurs somewhere in `t`.
pub fn contains_chars(t: &Vec<char>, p: &Vec<char>) -> (r: bool)
    ensures
        r == occurs_in(t@, p@),
{
    match find_first(t, p) {
        Some(_) => true,
        None => false,
    }
}

/// Replace every non-overlapping occurrence of `p` in `t` by `r`, leftmost
/// first, exactly as [`replace_all_spec`] describes.
pub fn replace_all(t: &Vec<char>, p: &Vec<char>, r: &Vec<char>) -> (out: Vec<char>)
    ensures
        out@ == replace_all_spec(t@, p@, r@),
{
    let mut out: Vec<char> = Vec::new();
    if p.len() == 0 {
        append_range(&mut out, t, 0, t.len());
        proof {
            assert(t@.subrange(0, t@.len() as int) =~= t@);
        }
        return out;
    }
    let mut i: usize = 0;
    proof {
        assert(t@.skip(0) =~= t@);
        assert(out@ + replace_all_spec(t@, p@, r@) =~= replace_all_spec(t@, p@, r@));
    }
    while i < t.len()
        invariant
            p@.len() > 0,
            i <= t@.len(),
            replace_all_spec(t@, p@, r@) == out@ + replace_all_spec(t@.skip(i as int), p@, r@),
        decreases t@.len() - i,
    {
        let ghost tail = t@.skip(i as int);
        if t.len() - i >= p.len() && matches_at(t, p, i) {
            proof {
                assert(tail.subrange(0, p@.len() as int) =~= t@.subrange(i as int, i + p@.len()));
                assert(tail.skip(p@.len() as int) =~= t@.skip(i + p@.len()));
            }
            append_range(&mut out, r, 0, r.len());
            proof {
                assert(r@.subrange(0, r@.len() as int) =~= r@);
            }
            i = i + p.len();
        } else {
            proof {
                if tail.len() >= p@.len() {
                    assert(tail.subrange(0, p@.len() as int) =~= t@.subrange(
                        i as int,
                        i + p@.len(),
                    ));
                }
                assert(tail =~= seq![t@[i as int]] + t@.skip(i + 1));
                assert(tail.skip(1) =~= t@.skip(i + 1));
            }
            let c = t[i];
            out.push(c);
            i = i + 1;
        }
    }
    proof {
        assert(t@.skip(t@.len() as int) =~= Seq::<char>::empty());
    }
    out
}

/// The character sequences of a vector of strings.
pub open spec fn strings_view(v: Seq<String>) -> Seq<Seq<char>> {
    Seq::new(v.len(), |i: int| v[i]@)
}

/// The character sequences of a vector of character vectors.
pub open spec fn vecs_view(v: Seq<Vec<char>>) -> Seq<Seq<char>> {
    Seq::new(v.len(), |i: int| v[i]@)
}

/// Convert a list of character vectors into strings, preserving contents.
pub fn to_strings(v: &Vec<Vec<char>>) -> (out: Vec<String>)
    ensures
        strings_view(out@) == vecs_view(v@),
{
    let mut out: Vec<String> = Vec::new();
    let mut i: usize = 0;
    while i < v.len()
        invariant
            i <= v@.len(),
            out@.len() == i,
            forall|k: int| 0 <= k < i ==> out@[k]@ == v@[k]@,
        decreases v@.len() - i,
    {
        let s = chars_to_string(&v[i]);
        out.push(s);
        i = i + 1;
    }
    proof {
        assert(strings_view(out@) =~= vecs_view(v@));
    }
    out
}

/// Free of the square-bracket characters that delimit redaction markers.
pub open spec fn bracket_free(s: Seq<char>) -> bool {
    forall|i: int| 0 <= i < s.len() ==> (#[trigger] s[i]) != '[' && s[i] != ']'
}

/// A bracket-free prefix of a replacement's result lies before any inserted
/// replacement text (which opens with `[`), so it is a prefix of the
/// original text.
pub proof fn lemma_replace_prefix(t: Seq<char>, p: Seq<char>, r: Seq<char>, n: int)
    requires
        r.len() > 0,
        r[0] == '[',
        0 <= n <= replace_all_spec(t, p, r).len(),
        bracket_free(replace_all_spec(t, p, r).take(n)),
    ensures
        n <= t.len(),
        replace_all_spec(t, p, r).take(n) == t.take(n),
    decreases t.len(),
{
    let out = replace_all_spec(t, p, r);
    if p.len() == 0 || t.len() < p.len() {
        // the result is t itself
    } else if t.subrange(0, p.len() as int) == p {
        // the result opens with r, whose first character is a bracket
        if n > 0 {
            assert(out[0] == r[0]);
            assert(out.take(n)[0] == '[');
        } else {
            assert(out.take(0) =~= t.take(0));
        }
    } else {
        let rest = replace_all_spec(t.skip(1), p, r);
        if n == 0 {
            assert(out.take(0) =~= t.take(0));
        } else {
            assert forall|k: int| 0 <= k < n - 1 implies (#[trigger] rest.take(n - 1)[k]) != '['
                && rest.take(n - 1)[k] != ']' by {
                assert(rest.take(n - 1)[k] == out.take(n)[k + 1]);
                assert(out.take(n)[k + 1] != '[' && out.take(n)[k + 1] != ']');
            }
            assert(bracket_free(rest.take(n - 1)));
            lemma_replace_prefix(t.skip(1), p, r, n - 1);
            assert forall|k: int| 0 <= k < n implies out.take(n)[k] == #[trigger] t.take(n)[k] by {
                if k >= 1 {
                    assert(out.take(n)[k] == rest[k - 1]);
                    assert(rest[k - 1] == t.skip(1).take(n - 1)[k - 1]);
                    assert(t.skip(1).take(n - 1)[k - 1] == t[k]);
                }
            }
            assert(out.take(n) =~= t.take(n));
        }
    }
}

/// After replacing `p` with a bracketed marker `r` that does not contain
/// the bracket-free, non-empty `x`, no occurrence of `x` remains: every
/// occurrence of `x == p` is consumed, and an `x` absent from the input is
/// not reintroduced — a surviving occurrence would have to lie inside the
/// marker, cross one of its brackets, or stand in original text where the
/// scanner or the hypothesis rules it out.
pub proof fn lemma_replace_all_free(t: Seq<char>, p: Seq<char>, r: Seq<char>, x: Seq<char>)
    requires
        x.len() > 0,
        bracket_free(x),
        r.len() > 0,
        r[0] == '[',
        r[r.len() - 1] == ']',
        !occurs_in(r, x),
        x == p || !occurs_in(t, x),
    ensures
        !occurs_in(replace_all_spec(t, p, r), x),
    decreases t.len(),
{
    let out = replace_all_spec(t, p, r);
    if p.len() == 0 || t.len() < p.len() {
        // the result is t itself; for x == p the text is too short to hold x
        assert forall|q: int| !occurs_at(out, x, q) by {
            if occurs_at(out, x, q) {
                assert(occurs_at(t, x, q));
            }
        }
    } else if t.subrange(0, p.len() as int) == p {
        let rest = replace_all_spec(t.skip(p.len() as int), p, r);
        assert(x == p || !occurs_in(t.skip(p.len() as int), x)) by {
            if x != p && occurs_in(t.skip(p.len() as int), x) {
                let q = choose|q: int| occurs_at(t.skip(p.len() as int), x, q);
                assert(t.subrange(q + p.len(), q + p.len() + x.len()) =~= t.skip(
                    p.len() as int,
                ).subrange(q, q + x.len() as int));
                assert(occurs_at(t, x, q + p.len()));
            }
        }
        lemma_replace_all_free(t.skip(p.len() as int), p, r, x);
        assert forall|q: int| !occurs_at(out, x, q) by {
            if occurs_at(out, x, q) {
                if q + x.len() <= r.len() {
                    assert(r.subrange(q, q + x.len() as int) =~= out.subrange(
                        q,
                        q + x.len() as int,
                    ));
                    assert(occurs_at(r, x, q));
                } else if q >= r.len() {
                    assert(rest.subrange(q - r.len(), q - r.len() + x.len()) =~= out.subrange(
                        q,
                        q + x.len() as int,
                    ));
                    assert(occurs_at(rest, x, q - r.len()));
                } else {
                    // the occurrence straddles the marker's closing bracket
                    assert(x[r.len() - 1 - q] == out[r.len() - 1]);
                    assert(out[r.len() - 1] == r[r.len() - 1]);
                }
            }
        }
    } else {
        let rest = replace_all_spec(t.skip(1), p, r);
        assert(x == p || !occurs_in(t.skip(1), x)) by {
            if x != p && occurs_in(t.skip(1), x) {
                let q = choose|q: int| occurs_at(t.skip(1), x, q);
                assert(t.subrange(q + 1, q + 1 + x.len()) =~= t.skip(1).subrange(
                    q,
                    q + x.len() as int,
                ));
                assert(occurs_at(t, x, q + 1));
            }
        }
        lemma_replace_all_free(t.skip(1), p, r, x);
        assert forall|q: int| !occurs_at(out, x, q) by {
            if occurs_at(out, x, q) {
                if q >= 1 {
                    assert(rest.subrange(q - 1, q - 1 + x.len()) =~= out.subrange(
                        q,
                        q + x.len() as int,
                    ));
                    assert(occurs_at(rest, x, q - 1));
                } else {
                    // x stands at the very front: it is then a prefix of the
                    // original text, where the scanner or the hypothesis
                    // rules it out
                    assert(out.subrange(0, x.len() as int) == x);
                    assert forall|k: int| 0 <= k < x.len() - 1 implies (#[trigger] rest.take(
                        x.len() - 1,
                    )[k]) != '[' && rest.take(x.len() - 1)[k] != ']' by {
                        assert(rest.take(x.len() - 1)[k] == out[k + 1]);
                        assert(out[k + 1] == out.subrange(0, x.len() as int)[k + 1]);
                        assert(x[k + 1] != '[' && x[k + 1] != ']');
                    }
                    assert(bracket_free(rest.take(x.len() - 1)));
                    lemma_replace_prefix(t.skip(1), p, r, x.len() - 1);
                    assert forall|k: int| 0 <= k < x.len() implies x[k] == #[trigger] t.take(
                        x.len() as int,
                    )[k] by {
                        assert(x[k] == out.subrange(0, x.len() as int)[k]);
                        if k == 0 {
                            assert(out[0] == t[0]);
                        } else {
                            assert(out[k] == rest[k - 1]);
                            assert(rest[k - 1] == rest.take(x.len() - 1)[k - 1]);
                            assert(rest.take(x.len() - 1)[k - 1] == t.skip(1).take(
                                x.len() - 1,
                            )[k - 1]);
                            assert(t.skip(1).take(x.len() - 1)[k - 1] == t[k]);
                        }
                    }
                    assert(x =~= t.take(x.len() as int));
                    if x == p {
                        assert(t.take(p.len() as int) =~= t.subrange(0, p.len() as int));
                    } else {
                        assert(t.subrange(0, x.len() as int) =~= t.take(x.len() as int));
                        assert(occurs_at(t, x, 0));
                    }
                }
            }
        }
    }
}

/// A space, tab, carriage return or newline.
pub open spec fn is_space_char(c: char) -> bool {
    c == ' ' || c == '\t' || c == '\r' || c == '\n'
}

/// `s` without its leading whitespace.
pub open spec fn trim_start_spec(s: Seq<char>) -> Seq<char>
    decreases s.len(),
{
    if s.len() > 0 && is_space_char(s[0]) {
        trim_start_spec(s.drop_first())
    } else {
        s
    }
}

/// `s` without its trailing whitespace.
pub open spec fn trim_end_spec(s: Seq<char>) -> Seq<char>
    decreases s.len(),
{
    if s.len() > 0 && is_space_char(s[s.len() - 1]) {
        trim_end_spec(s.drop_last())
    } else {
        s
    }
}

/// `s` without leading and trailing whitespace.
pub open spec fn trim_spec(s: Seq<char>) -> Seq<char> {
    trim_end_spec(trim_start_spec(s))
}

/// `v` without its trailing whitespace.
pub fn trim_end_chars(v: &Vec<char>) -> (out: Vec<char>)
    ensures
        out@ == trim_end_spec(v@),
{
    let mut end: usize = v.len();
    proof {
        assert(v@.take(v@.len() as int) =~= v@);
    }
    while end > 0 && is_space_exec(v[end - 1])
        invariant
            end <= v@.len(),
            trim_end_spec(v@) == trim_end_spec(v@.take(end as int)),
        decreases end,
    {
        proof {
            assert(v@.take(end as int).drop_last() =~= v@.take(end - 1));
        }
        end = end - 1;
    }
    let mut out: Vec<char> = Vec::new();
    append_range(&mut out, v, 0, end);
    proof {
        assert(v@.subrange(0, end as int) =~= v@.take(end as int));
        if end > 0 {
            assert(!is_space_char(v@.take(end as int)[end - 1]));
        }
    }
    out
}

/// `v` without leading and trailing whitespace.
pub fn trim_chars(v: &Vec<char>) -> (out: Vec<char>)
    ensures
        out@ == trim_spec(v@),
{
    let mut start: usize = 0;
    proof {
        assert(v@.skip(0) =~= v@);
    }
    while start < v.len() && is_space_exec(v[start])
        invariant
            start <= v@.len(),
            trim_start_spec(v@) == trim_start_spec(v@.skip(start as int)),
        decreases v@.len() - start,
    {
        proof {
            assert(v@.skip(start as int).drop_first() =~= v@.skip(start + 1));
        }
        start = start + 1;
    }
    let mut rest: Vec<char> = Vec::new();
    append_range(&mut rest, v, start, v.len());
    proof {
        assert(v@.subrange(start as int, v@.len() as int) =~= v@.skip(start as int));
        if start < v@.len() {
            assert(!is_space_char(v@.skip(start as int)[0]));
        }
    }
    trim_end_chars(&rest)
}

/// Split `s` at the first occurrence of `c`: the part before and the part
/// after, or `None` when `c` does not occur.
pub open spec fn split_once_spec(s: Seq<char>, c: char) -> Option<(Seq<char>, Seq<char>)>
    decreases s.len(),
{
    if s.len() == 0 {
        None
    } else if s[0] == c {
        Some((Seq::<char>::empty(), s.drop_first()))
    } else {
        match split_once_spec(s.drop_first(), c) {
            None => None,
            Some(parts) => Some((seq![s[0]] + parts.0, parts.1)),
        }
    }
}

/// With the first `c` of `s` at position `i`, the split yields the parts
/// around that position.
pub proof fn lemma_split_once_at(s: Seq<char>, c: char, i: int)
    requires
        0 <= i < s.len(),
        s[i] == c,
        forall|k: int| 0 <= k < i ==> s[k] != c,
    ensures
        split_once_spec(s, c) == Some((s.take(i), s.skip(i + 1))),
    decreases i,
{
    if i == 0 {
        assert(s.take(0) =~= Seq::<char>::empty());
        assert(s.skip(1) =~= s.drop_first());
    } else {
        lemma_split_once_at(s.drop_first(), c, i - 1);
        assert(s.take(i) =~= seq![s[0]] + s.drop_first().take(i - 1));
        assert(s.skip(i + 1) =~= s.drop_first().skip(i));
    }
}

/// With no `c` in `s`, the split yields nothing.
pub proof fn lemma_split_once_none(s: Seq<char>, c: char)
    requires
        forall|k: int| 0 <= k < s.len() ==> s[k] != c,
    ensures
        split_once_spec(s, c) is None,
    decreases s.len(),
{
    if s.len() > 0 {
        lemma_split_once_none(s.drop_first(), c);
    }
}

/// Position of the first occurrence of the character `c` in `v`, if any.
pub fn find_char(v: &Vec<char>, c: char) -> (r: Option<usize>)
    ensures
        match r {
            Some(i) => i < v@.len() && v@[i as int] == c && forall|k: int|
                0 <= k < i ==> v@[k] != c,
            None => forall|k: int| 0 <= k < v@.len() ==> v@[k] != c,
        },
{
    let mut i: usize = 0;
    while i < v.len()
        invariant
            i <= v@.len(),
            forall|k: int| 0 <= k < i ==> v@[k] != c,
        decreases v@.len() - i,
    {
        if v[i] == c {
            return Some(i);
        }
        i = i + 1;
    }
    None
}

/// Split `v` at the first occurrence of `c`, exactly as
/// [`split_once_spec`] describes.
pub fn split_once_char(v: &Vec<char>, c: char) -> (r: Option<(Vec<char>, Vec<char>)>)
    ensures
        match r {
            Some(parts) => split_once_spec(v@, c) == Some((parts.0@, parts.1@)),
            None => split_once_spec(v@, c) is None,
        },
{
    match find_char(v, c) {
        Some(i) => {
            let n = v.len();
            let mut before: Vec<char> = Vec::new();
            append_range(&mut before, v, 0, i);
            let mut after: Vec<char> = Vec::new();
            append_range(&mut after, v, i + 1, n);
            proof {
                lemma_split_once_at(v@, c, i as int);
                assert(v@.subrange(0, i as int) =~= v@.take(i as int));
                assert(v@.subrange(i + 1, v@.len() as int) =~= v@.skip(i + 1));
            }
            Some((before, after))
        },
        None => {
            proof {
                lemma_split_once_none(v@, c);
            }
            None
        },
    }
}

/// The two string slices hold the same characters.
pub fn str_eq(a: &str, b: &str) -> (r: bool)
    ensures
        r == (a@ == b@),
{
    let va = str_to_chars(a);
    let vb = str_to_chars(b);
    chars_eq(&va, &vb)
}

/// Whether `c` is whitespace, executably.
pub fn is_space_exec(c: char) -> (r: bool)
    ensures
        r == is_space_char(c),
{
    c == ' ' || c == '\t' || c == '\r' || c == '\n'
}

/// Strict lexicographic order on character sequences, by code point.
pub open spec fn lex_lt(a: Seq<char>, b: Seq<char>) -> bool
    decreases a.len(),
{
    if b.len() == 0 {
        false
    } else if a.len() == 0 {
        true
    } else if a[0] == b[0] {
        lex_lt(a.drop_first(), b.drop_first())
    } else {
        (a[0] as u32) < (b[0] as u32)
    }
}

/// The order is asymmetric.
pub proof fn lemma_lex_lt_asymmetric(a: Seq<char>, b: Seq<char>)
    ensures
        !(lex_lt(a, b) && lex_lt(b, a)),
    decreases a.len(),
{
    if a.len() > 0 && b.len() > 0 && a[0] == b[0] {
        lemma_lex_lt_asymmetric(a.drop_first(), b.drop_first());
    }
}

/// Two strictly `lex_lt`-sorted sequences of names with the same members
/// are the same sequence: strict sortedness leaves an ordered set exactly
/// one presentation.
pub proof fn lemma_sorted_names_unique(a: Seq<Seq<char>>, b: Seq<Seq<char>>)
    requires
        forall|i: int, j: int| 0 <= i < j < a.len() ==> lex_lt(a[i], a[j]),
        forall|i: int, j: int| 0 <= i < j < b.len() ==> lex_lt(b[i], b[j]),
        forall|n: Seq<char>| a.contains(n) <==> b.contains(n),
    ensures
        a == b,
    decreases a.len(),
{
    if a.len() == 0 {
        if b.len() > 0 {
            assert(b.contains(b[0]));
            assert(a.contains(b[0]));
        }
        assert(a =~= b);
    } else {
        assert(a.contains(a[0]));
        assert(b.contains(a[0]));
        let ib = choose|i: int| 0 <= i < b.len() && b[i] == a[0];
        assert(b.contains(b[0]));
        assert(a.contains(b[0]));
        let ia = choose|i: int| 0 <= i < a.len() && a[i] == b[0];
        if ib > 0 {
            assert(lex_lt(b[0], a[0]));
            if ia > 0 {
                assert(lex_lt(a[0], b[0]));
                lemma_lex_lt_asymmetric(a[0], b[0]);
            } else {
                lemma_lex_lt_asymmetric(b[0], a[0]);
            }
        }
        assert(b[0] == a[0]);
        let a1 = a.drop_first();
        let b1 = b.drop_first();
        assert forall|n: Seq<char>| a1.contains(n) implies a.contains(n) && n != a[0] by {
            let i = choose|i: int| 0 <= i < a1.len() && a1[i] == n;
            assert(a[i + 1] == n);
            assert(lex_lt(a[0], a[i + 1]));
            if n == a[0] {
                lemma_lex_lt_asymmetric(a[0], a[0]);
            }
        }
        assert forall|n: Seq<char>| a.contains(n) && n != a[0] implies a1.contains(n) by {
            let i = choose|i: int| 0 <= i < a.len() && a[i] == n;
            assert(i > 0);
            assert(a1[i - 1] == n);
        }
        assert forall|n: Seq<char>| b1.contains(n) implies b.contains(n) && n != b[0] by {
            let i = choose|i: int| 0 <= i < b1.len() && b1[i] == n;
            assert(b[i + 1] == n);
            assert(lex_lt(b[0], b[i + 1]));
            if n == b[0] {
                lemma_lex_lt_asymmetric(b[0], b[0]);
            }
        }
        assert forall|n: Seq<char>| b.contains(n) && n != b[0] implies b1.contains(n) by {
            let i = choose|i: int| 0 <= i < b.len() && b[i] == n;
            assert(i > 0);
            assert(b1[i - 1] == n);
        }
        assert(forall|n: Seq<char>| a1.contains(n) <==> b1.contains(n));
        lemma_sorted_names_unique(a1, b1);
        assert(a.len() == b.len());
        assert forall|i: int| 0 <= i < a.len() implies a[i] == b[i] by {
            if i > 0 {
                assert(a1[i - 1] == b1[i - 1]);
                assert(a[i] == a1[i - 1]);
                assert(b[i] == b1[i - 1]);
            }
        }
        assert(a =~= b);
    }
}

/// Ten to the `k`.
pub open spec fn pow10(k: nat) -> int
    decreases k,
{
    if k == 0 {
        1
    } else {
        10 * pow10((k - 1) as nat)
    }
}

/// Every character is an ASCII digit and there is at least one.
pub open spec fn all_digits(s: Seq<char>) -> bool {
    s.len() > 0 && forall|i: int| 0 <= i < s.len() ==> '0' <= #[trigger] s[i] && s[i] <= '9'
}

/// The number an ASCII digit string denotes.
pub open spec fn decimal_value(s: Seq<char>) -> int
    decreases s.len(),
{
    if s.len() == 0 {
        0
    } else {
        decimal_value(s.drop_last()) * 10 + ((s.last() as u32) - ('0' as u32))
    }
}

/// A digit string's value stays below ten to its length.
pub proof fn lemma_decimal_value_bound(s: Seq<char>)
    requires
        forall|i: int| 0 <= i < s.len() ==> '0' <= #[trigger] s[i] && s[i] <= '9',
    ensures
        0 <= decimal_value(s) < pow10(s.len()),
    decreases s.len(),
{
    if s.len() > 0 {
        lemma_decimal_value_bound(s.drop_last());
        assert(('0' as u32) <= (s.last() as u32) <= ('9' as u32));
    }
}

/// Parse a short ASCII decimal number.  Succeeds exactly on strings of one
/// to nine digits, with the value they denote.
pub fn parse_decimal(v: &Vec<char>) -> (r: Option<u64>)
    ensures
        match r {
            Some(n) => all_digits(v@) && v@.len() <= 9 && n == decimal_value(v@),
            None => !all_digits(v@) || v@.len() > 9,
        },
{
    if v.len() == 0 || v.len() > 9 {
        return None;
    }
    let mut n: u64 = 0;
    let mut i: usize = 0;
    proof {
        assert(v@.take(0) =~= Seq::<char>::empty());
    }
    while i < v.len()
        invariant
            i <= v@.len() <= 9,
            forall|k: int| 0 <= k < i ==> '0' <= #[trigger] v@[k] && v@[k] <= '9',
            n == decimal_value(v@.take(i as int)),
            0 <= n < pow10(i as nat),
        decreases v@.len() - i,
    {
        let c = v[i];
        if !('0' <= c && c <= '9') {
            return None;
        }
        proof {
            assert(v@.take(i + 1).drop_last() =~= v@.take(i as int));
            assert(v@.take(i + 1).last() == v@[i as int]);
            lemma_decimal_value_bound(v@.take(i + 1));
            assert(pow10(9) == 1000000000) by {
                reveal_with_fuel(pow10, 10);
            }
            assert(pow10((i + 1) as nat) <= pow10(9)) by {
                lemma_pow10_le((i + 1) as nat, 9);
            }
        }
        let d = (c as u32) - ('0' as u32);
        n = n * 10 + (d as u64);
        i = i + 1;
    }
    proof {
        assert(v@.take(v@.len() as int) =~= v@);
    }
    Some(n)
}

/// Ten to the power is monotone in the exponent.
pub proof fn lemma_pow10_le(a: nat, b: nat)
    requires
        a <= b,
    ensures
        pow10(a) <= pow10(b),
    decreases b,
{
    if a < b {
        lemma_pow10_le(a, (b - 1) as nat);
        assert(pow10(b) == 10 * pow10((b - 1) as nat));
        assert(pow10(a) >= 1) by {
            lemma_pow10_pos(a);
        }
        lemma_pow10_pos((b - 1) as nat);
    }
}

/// Ten to any power is positive.
pub proof fn lemma_pow10_pos(k: nat)
    ensures
        pow10(k) >= 1,
    decreases k,
{
    if k > 0 {
        lemma_pow10_pos((k - 1) as nat);
    }
}

/// Relies on `String::from_utf8`: succeeds exactly on valid UTF-8, with the
/// decoding that vstd's UTF-8 specification gives.
#[verifier::external_body]
pub(crate) fn bytes_to_string(v: Vec<u8>) -> (r: Option<String>)
    ensures
        match r {
            Some(s) => vstd::utf8::valid_utf8(v@) && s@ == vstd::utf8::decode_utf8(v@),
            None => !vstd::utf8::valid_utf8(v@),
        },
{
    String::from_utf8(v).ok()
}

} // verus!
