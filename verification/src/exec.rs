use vstd::prelude::*;

use crate::error::Error;
use crate::sanitize::secrets_view;
use crate::secret_gen::is_alnum_char;
use crate::text::{
    append_range, chars_to_string, replace_all, replace_all_spec, split_once_spec,
    split_once_char, str_to_chars, strings_view, to_strings,
};

verus! {

// Building a safe shell command line: each caller-supplied token is quoted
// on its own, the tokens are joined with single spaces, and `{{NAME}}`
// placeholders are substituted with resolved secret values only after
// quoting, so that secret content is never re-interpreted as shell syntax.

/// A character that passes through shell quoting unescaped: ASCII
/// alphanumerics and `_`, `-`, `.`, `/`, `:`.
pub open spec fn is_safe_shell_char(c: char) -> bool {
    is_alnum_char(c) || c == '_' || c == '-' || c == '.' || c == '/' || c == ':'
}

/// Every character of `s` is safe.
pub open spec fn all_safe_shell(s: Seq<char>) -> bool {
    forall|i: int| 0 <= i < s.len() ==> is_safe_shell_char(#[trigger] s[i])
}

/// The interior of a single-quoted token: every single quote becomes the
/// close-quote, escaped-quote, reopen-quote sequence `'\''`.
pub open spec fn quote_body_spec(s: Seq<char>) -> Seq<char>
    decreases s.len(),
{
    if s.len() == 0 {
        Seq::<char>::empty()
    } else if s[0] == '\'' {
        seq!['\'', '\\', '\'', '\''] + quote_body_spec(s.drop_first())
    } else {
        seq![s[0]] + quote_body_spec(s.drop_first())
    }
}

/// A token as it stands in the rebuilt command string: empty tokens become
/// `''`, tokens of safe characters pass through, all others are wrapped in
/// single quotes with interior quotes escaped.
pub open spec fn shell_quote_spec(s: Seq<char>) -> Seq<char> {
    if s.len() == 0 {
        seq!['\'', '\'']
    } else if all_safe_shell(s) {
        s
    } else {
        seq!['\''] + quote_body_spec(s) + seq!['\'']
    }
}

/// The command string rebuilt from caller tokens: each token quoted on its
/// own, joined with single spaces.
pub open spec fn join_quoted_spec(parts: Seq<Seq<char>>) -> Seq<char>
    decreases parts.len(),
{
    if parts.len() == 0 {
        Seq::<char>::empty()
    } else if parts.len() == 1 {
        shell_quote_spec(parts[0])
    } else {
        shell_quote_spec(parts[0]) + seq![' '] + join_quoted_spec(parts.drop_first())
    }
}

/// Whether `c` is a safe shell character, executably.
fn is_safe_shell_exec(c: char) -> (r: bool)
    ensures
        r == is_safe_shell_char(c),
{
    ('A' <= c && c <= 'Z') || ('a' <= c && c <= 'z') || ('0' <= c && c <= '9') || c == '_'
        || c == '-' || c == '.' || c == '/' || c == ':'
}

/// Shell-quote one token, exactly as [`shell_quote_spec`] describes.
pub fn shell_quote(s: &str) -> (r: String)
    ensures
        r@ == shell_quote_spec(s@),
{
    let v = str_to_chars(s);
    let quoted = shell_quote_chars(&v);
    chars_to_string(&quoted)
}

/// Shell-quote one token given as characters.
fn shell_quote_chars(v: &Vec<char>) -> (out: Vec<char>)
    ensures
        out@ == shell_quote_spec(v@),
{
    if v.len() == 0 {
        let mut out: Vec<char> = Vec::new();
        out.push('\'');
        out.push('\'');
        proof {
            assert(out@ =~= shell_quote_spec(v@));
        }
        return out;
    }
    let mut safe = true;
    let mut i: usize = 0;
    while i < v.len()
        invariant
            i <= v@.len(),
            safe == (forall|k: int| 0 <= k < i ==> is_safe_shell_char(#[trigger] v@[k])),
        decreases v@.len() - i,
    {
        if !is_safe_shell_exec(v[i]) {
            safe = false;
        }
        i = i + 1;
    }
    if safe {
        let mut out: Vec<char> = Vec::new();
        append_range(&mut out, v, 0, v.len());
        proof {
            assert(v@.subrange(0, v@.len() as int) =~= v@);
        }
        return out;
    }
    let mut out: Vec<char> = Vec::new();
    out.push('\'');
    let mut j: usize = 0;
    proof {
        assert(out@ =~= seq!['\''] + quote_body_spec(v@.take(0)));
    }
    while j < v.len()
        invariant
            j <= v@.len(),
            out@ == seq!['\''] + quote_body_spec(v@.take(j as int)),
        decreases v@.len() - j,
    {
        proof {
            lemma_quote_body_snoc(v@.take(j as int), v@[j as int]);
            assert(v@.take(j + 1) =~= v@.take(j as int).push(v@[j as int]));
        }
        let c = v[j];
        if c == '\'' {
            out.push('\'');
            out.push('\\');
            out.push('\'');
            out.push('\'');
        } else {
            out.push(c);
        }
        j = j + 1;
    }
    out.push('\'');
    proof {
        assert(v@.take(v@.len() as int) =~= v@);
        assert(out@ =~= seq!['\''] + quote_body_spec(v@) + seq!['\'']);
    }
    out
}

/// Appending one character to the token extends the quoted interior by that
/// character's escape.
proof fn lemma_quote_body_snoc(s: Seq<char>, c: char)
    ensures
        quote_body_spec(s.push(c)) == quote_body_spec(s) + (if c == '\'' {
            seq!['\'', '\\', '\'', '\'']
        } else {
            seq![c]
        }),
    decreases s.len(),
{
    let tail: Seq<char> = if c == '\'' {
        seq!['\'', '\\', '\'', '\'']
    } else {
        seq![c]
    };
    if s.len() == 0 {
        assert(s.push(c).len() == 1);
        assert(s.push(c)[0] == c);
        assert(s.push(c).drop_first() =~= Seq::<char>::empty());
        assert(quote_body_spec(Seq::<char>::empty()) == Seq::<char>::empty());
        if c == '\'' {
            assert(quote_body_spec(s.push(c)) == seq!['\'', '\\', '\'', '\''] + quote_body_spec(
                s.push(c).drop_first(),
            ));
        } else {
            assert(quote_body_spec(s.push(c)) == seq![c] + quote_body_spec(
                s.push(c).drop_first(),
            ));
        }
        assert(quote_body_spec(s.push(c)) =~= tail);
        assert(quote_body_spec(s) + tail =~= tail);
    } else {
        lemma_quote_body_snoc(s.drop_first(), c);
        assert(s.push(c).drop_first() =~= s.drop_first().push(c));
        assert(s.push(c)[0] == s[0]);
        if s[0] == '\'' {
            assert(quote_body_spec(s.push(c)) =~= seq!['\'', '\\', '\'', '\''] + quote_body_spec(
                s.drop_first().push(c),
            ));
            assert(quote_body_spec(s) + tail =~= seq!['\'', '\\', '\'', '\''] + (quote_body_spec(
                s.drop_first(),
            ) + tail));
        } else {
            assert(quote_body_spec(s.push(c)) =~= seq![s[0]] + quote_body_spec(
                s.drop_first().push(c),
            ));
            assert(quote_body_spec(s) + tail =~= seq![s[0]] + (quote_body_spec(s.drop_first())
                + tail));
        }
    }
}

/// Rebuild the command string from the caller's tokens: each token quoted
/// independently, joined with single spaces.
pub fn build_command(parts: &Vec<String>) -> (r: String)
    ensures
        r@ == join_quoted_spec(strings_view(parts@)),
{
    let ghost pv = strings_view(parts@);
    let mut out: Vec<char> = Vec::new();
    let mut i: usize = 0;
    while i < parts.len()
        invariant
            pv == strings_view(parts@),
            i <= parts@.len(),
            i == 0 ==> out@ == Seq::<char>::empty(),
            0 < i ==> out@ + join_tail(pv, i as int) == join_quoted_spec(pv),
        decreases parts@.len() - i,
    {
        let ghost prev = out@;
        let quoted = shell_quote(parts[i].as_str());
        let mut qc = str_to_chars(quoted.as_str());
        if i > 0 {
            out.push(' ');
        }
        out.append(&mut qc);
        proof {
            assert(pv[i as int] == parts@[i as int]@);
            if i == 0 {
                lemma_join_unfold(pv);
                assert(out@ =~= shell_quote_spec(pv[0]));
            } else {
                assert(join_tail(pv, i as int) == seq![' '] + shell_quote_spec(pv[i as int])
                    + join_tail(pv, i + 1));
                assert(prev + join_tail(pv, i as int) =~= out@ + join_tail(pv, i + 1));
            }
        }
        i = i + 1;
    }
    proof {
        if parts@.len() == 0 {
            assert(out@ =~= join_quoted_spec(pv));
        } else {
            assert(join_tail(pv, parts@.len() as int) =~= Seq::<char>::empty());
            assert(out@ + join_tail(pv, parts@.len() as int) =~= out@);
        }
    }
    chars_to_string(&out)
}

/// What remains of the joined command after the first `i` tokens: a leading
/// space when tokens came before, then the rest of the join.
pub open spec fn join_tail(parts: Seq<Seq<char>>, i: int) -> Seq<char>
    decreases parts.len() - i,
{
    if i < 0 || i >= parts.len() {
        Seq::<char>::empty()
    } else {
        seq![' '] + shell_quote_spec(parts[i]) + join_tail(parts, i + 1)
    }
}

/// The join of a non-empty token list is its first quoted token, then the
/// tail.
proof fn lemma_join_unfold(parts: Seq<Seq<char>>)
    ensures
        parts.len() > 0 ==> join_quoted_spec(parts) == shell_quote_spec(parts[0]) + join_tail(
            parts,
            1,
        ),
    decreases parts.len(),
{
    if parts.len() == 0 {
    } else if parts.len() == 1 {
        assert(join_tail(parts, 1) =~= Seq::<char>::empty());
        assert(shell_quote_spec(parts[0]) + Seq::<char>::empty() =~= shell_quote_spec(parts[0]));
    } else {
        lemma_join_unfold(parts.drop_first());
        assert(parts.drop_first()[0] == parts[1]);
        lemma_join_tail_shift(parts, 2);
        assert(join_quoted_spec(parts) =~= shell_quote_spec(parts[0]) + seq![' ']
            + join_quoted_spec(parts.drop_first()));
        assert(shell_quote_spec(parts[0]) + join_tail(parts, 1) =~= shell_quote_spec(parts[0])
            + seq![' '] + (shell_quote_spec(parts[1]) + join_tail(parts, 2)));
        assert(join_quoted_spec(parts.drop_first()) =~= shell_quote_spec(parts[1]) + join_tail(
            parts,
            2,
        ));
    }
}

/// Parse an env specification `[bucket/]secret[:ENV_VAR]`: the part before
/// the first `:` names the secret and the part after it the environment
/// variable; without a `:` the variable is the bare secret name, bucket
/// prefix stripped.
pub fn parse_env_spec(env_spec: &str) -> (r: (String, String))
    ensures
        match split_once_spec(env_spec@, ':') {
            Some(parts) => r.0@ == parts.0 && r.1@ == parts.1,
            None => r.0@ == env_spec@ && r.1@ == crate::vault::name_only_spec(env_spec@),
        },
{
    let chars = str_to_chars(env_spec);
    match split_once_char(&chars, ':') {
        Some(parts) => (chars_to_string(&parts.0), chars_to_string(&parts.1)),
        None => {
            let var = crate::vault::secret_name_only(env_spec);
            (chars_to_string(&chars), var)
        },
    }
}

/// A word character of the placeholder grammar: an ASCII letter, digit or
/// underscore.
pub open spec fn is_word_char(c: char) -> bool {
    is_alnum_char(c) || c == '_'
}

/// The length of the run of word characters that opens `s`.
pub open spec fn word_run(s: Seq<char>) -> nat
    decreases s.len(),
{
    if s.len() > 0 && is_word_char(s[0]) {
        1 + word_run(s.drop_first())
    } else {
        0
    }
}

/// The opening word run never passes the end of `s`.
pub proof fn lemma_word_run_le_len(s: Seq<char>)
    ensures
        word_run(s) <= s.len(),
    decreases s.len(),
{
    if s.len() > 0 && is_word_char(s[0]) {
        lemma_word_run_le_len(s.drop_first());
    }
}

/// A placeholder `{{NAME}}` with a non-empty word-character name stands at
/// the very start of `s`.
pub open spec fn ph_at_start(s: Seq<char>) -> bool {
    &&& s.len() >= 2
    &&& s[0] == '{'
    &&& s[1] == '{'
    &&& word_run(s.skip(2)) >= 1
    &&& 4 + word_run(s.skip(2)) <= s.len()
    &&& s[2 + word_run(s.skip(2)) as int] == '}'
    &&& s[3 + word_run(s.skip(2)) as int] == '}'
}

/// The names of the `{{NAME}}` placeholders of `s`, left to right,
/// non-overlapping, repetitions kept.
pub open spec fn scan_placeholders_spec(s: Seq<char>) -> Seq<Seq<char>>
    decreases s.len(),
{
    if s.len() == 0 {
        Seq::<Seq<char>>::empty()
    } else if ph_at_start(s) {
        seq![s.subrange(2, 2 + word_run(s.skip(2)) as int)] + scan_placeholders_spec(
            s.skip(4 + word_run(s.skip(2)) as int),
        )
    } else {
        scan_placeholders_spec(s.drop_first())
    }
}

/// `s` with later repetitions of an element removed: each element keeps its
/// first occurrence.
pub open spec fn dedup_keep_first(s: Seq<Seq<char>>) -> Seq<Seq<char>>
    decreases s.len(),
{
    if s.len() == 0 {
        s
    } else if s.drop_last().contains(s.last()) {
        dedup_keep_first(s.drop_last())
    } else {
        dedup_keep_first(s.drop_last()).push(s.last())
    }
}

/// Deduplication keeps exactly the members.
pub proof fn lemma_dedup_contains(s: Seq<Seq<char>>, x: Seq<char>)
    ensures
        dedup_keep_first(s).contains(x) == s.contains(x),
    decreases s.len(),
{
    if s.len() > 0 {
        let t = s.drop_last();
        let l = s.last();
        lemma_dedup_contains(t, x);
        assert(s.contains(x) ==> t.contains(x) || x == l) by {
            if s.contains(x) {
                let i = choose|i: int| 0 <= i < s.len() && s[i] == x;
                if i < s.len() - 1 {
                    assert(t[i] == x);
                }
            }
        }
        assert(t.contains(x) ==> s.contains(x)) by {
            if t.contains(x) {
                let i = choose|i: int| 0 <= i < t.len() && t[i] == x;
                assert(s[i] == x);
            }
        }
        assert(s[s.len() - 1] == l);
        if !t.contains(l) {
            assert(dedup_keep_first(s) == dedup_keep_first(t).push(l));
            assert(dedup_keep_first(s).contains(x) == (dedup_keep_first(t).contains(x) || x == l))
                by {
                if dedup_keep_first(t).contains(x) {
                    let i = choose|i: int|
                        0 <= i < dedup_keep_first(t).len() && dedup_keep_first(t)[i] == x;
                    assert(dedup_keep_first(s)[i] == x);
                }
                if x == l {
                    assert(dedup_keep_first(s).last() == l);
                }
                if dedup_keep_first(s).contains(x) {
                    let i = choose|i: int|
                        0 <= i < dedup_keep_first(s).len() && dedup_keep_first(s)[i] == x;
                    if i < dedup_keep_first(s).len() - 1 {
                        assert(dedup_keep_first(t)[i] == x);
                    }
                }
            }
        }
    }
}

/// The length of the word run of `t` starting at position `from`.
fn word_run_at(t: &Vec<char>, from: usize) -> (k: usize)
    requires
        from <= t@.len(),
    ensures
        k == word_run(t@.skip(from as int)),
        from + k <= t@.len(),
{
    let mut j: usize = from;
    while j < t.len() && is_word_exec(t[j])
        invariant
            from <= j <= t@.len(),
            word_run(t@.skip(from as int)) == j - from + word_run(t@.skip(j as int)),
        decreases t@.len() - j,
    {
        proof {
            assert(t@.skip(j as int)[0] == t@[j as int]);
            assert(t@.skip(j as int).drop_first() =~= t@.skip(j + 1));
        }
        j = j + 1;
    }
    proof {
        assert(word_run(t@.skip(j as int)) == 0);
        lemma_word_run_le_len(t@.skip(from as int));
    }
    j - from
}

/// Whether `c` is a word character, executably.
fn is_word_exec(c: char) -> (r: bool)
    ensures
        r == is_word_char(c),
{
    ('A' <= c && c <= 'Z') || ('a' <= c && c <= 'z') || ('0' <= c && c <= '9') || c == '_'
}

/// Membership of the characters `x` in the list `v`.
fn contains_name(v: &Vec<Vec<char>>, x: &Vec<char>) -> (r: bool)
    ensures
        r == crate::text::vecs_view(v@).contains(x@),
{
    let mut i: usize = 0;
    while i < v.len()
        invariant
            i <= v@.len(),
            forall|k: int| 0 <= k < i ==> v@[k]@ != x@,
        decreases v@.len() - i,
    {
        if crate::text::chars_eq(&v[i], x) {
            proof {
                assert(crate::text::vecs_view(v@)[i as int] == x@);
            }
            return true;
        }
        i = i + 1;
    }
    proof {
        assert(forall|k: int|
            0 <= k < v@.len() ==> crate::text::vecs_view(v@)[k] == #[trigger] v@[k]@);
    }
    false
}

/// The distinct names referenced by `{{NAME}}` placeholders in the command
/// string, in order of first appearance.
pub fn parse_placeholders(command: &str) -> (r: Vec<String>)
    ensures
        strings_view(r@) == dedup_keep_first(scan_placeholders_spec(command@)),
{
    let t = str_to_chars(command);
    let mut found: Vec<Vec<char>> = Vec::new();
    let ghost mut raw: Seq<Seq<char>> = Seq::<Seq<char>>::empty();
    let mut i: usize = 0;
    proof {
        assert(t@.skip(0) =~= t@);
        assert(raw + scan_placeholders_spec(t@) =~= scan_placeholders_spec(t@));
        assert(crate::text::vecs_view(found@) =~= dedup_keep_first(raw));
    }
    while i < t.len()
        invariant
            i <= t@.len(),
            scan_placeholders_spec(t@) == raw + scan_placeholders_spec(t@.skip(i as int)),
            crate::text::vecs_view(found@) == dedup_keep_first(raw),
        decreases t@.len() - i,
    {
        let ghost tail = t@.skip(i as int);
        let mut matched = false;
        if i + 1 < t.len() && t[i] == '{' && t[i + 1] == '{' {
            proof {
                assert(tail[0] == '{');
                assert(tail[1] == '{');
                assert(tail.skip(2) =~= t@.skip(i + 2));
            }
            let k = word_run_at(&t, i + 2);
            let end = i + 2 + k;
            if k >= 1 && t.len() - end >= 2 && t[end] == '}' && t[end + 1] == '}' {
                proof {
                    assert(tail[2 + k as int] == t@[i + 2 + k]);
                    assert(tail[3 + k as int] == t@[i + 3 + k]);
                    assert(ph_at_start(tail));
                }
                let mut name: Vec<char> = Vec::new();
                append_range(&mut name, &t, i + 2, end);
                proof {
                    assert(name@ =~= tail.subrange(2, 2 + word_run(tail.skip(2)) as int));
                    assert(tail.skip(4 + word_run(tail.skip(2)) as int) =~= t@.skip(i + 4 + k));
                    assert(scan_placeholders_spec(tail) == seq![name@]
                        + scan_placeholders_spec(t@.skip(i + 4 + k)));
                }
                let present = contains_name(&found, &name);
                proof {
                    let ghost raw2 = raw.push(name@);
                    lemma_dedup_contains(raw, name@);
                    assert(raw2.drop_last() =~= raw);
                    assert(raw2.last() == name@);
                    assert(dedup_keep_first(raw2) == if raw.contains(name@) {
                        dedup_keep_first(raw)
                    } else {
                        dedup_keep_first(raw).push(name@)
                    });
                    assert(raw + scan_placeholders_spec(tail) =~= raw2 + scan_placeholders_spec(
                        t@.skip(i + 4 + k),
                    ));
                }
                if !present {
                    found.push(name);
                    proof {
                        assert(crate::text::vecs_view(found@) =~= dedup_keep_first(raw).push(
                            t@.subrange(i + 2, i + 2 + k),
                        ));
                    }
                }
                proof {
                    raw = raw.push(t@.subrange(i + 2, i + 2 + k));
                }
                i = end + 2;
                matched = true;
            }
        }
        if !matched {
            proof {
                if tail.len() > 0 && !ph_at_start(tail) {
                    assert(scan_placeholders_spec(tail) == scan_placeholders_spec(
                        tail.drop_first(),
                    ));
                }
                assert(tail.drop_first() =~= t@.skip(i + 1));
            }
            i = i + 1;
        }
    }
    proof {
        assert(t@.skip(t@.len() as int) =~= Seq::<char>::empty());
        assert(raw + scan_placeholders_spec(Seq::<char>::empty()) =~= raw);
    }
    to_strings(&found)
}

/// A `{{NAME}}` placeholder token.
pub open spec fn placeholder_of(name: Seq<char>) -> Seq<char> {
    "{{"@ + name + "}}"@
}

/// The command string after substituting each secret's placeholder with its
/// plaintext value, in list order.
pub open spec fn inject_all_spec(cmd: Seq<char>, secrets: Seq<(Seq<char>, Seq<char>)>) -> Seq<char>
    decreases secrets.len(),
{
    if secrets.len() == 0 {
        cmd
    } else {
        inject_all_spec(
            replace_all_spec(cmd, placeholder_of(secrets[0].0), secrets[0].1),
            secrets.drop_first(),
        )
    }
}

/// Substitute `{{NAME}}` placeholders in the quoted command string with the
/// resolved plaintext values, one secret after the other in list order.
pub fn inject_secrets(command: &str, secrets: &Vec<(String, String)>) -> (r: String)
    ensures
        r@ == inject_all_spec(command@, secrets_view(secrets@)),
{
    let mut cur: Vec<char> = str_to_chars(command);
    let mut i: usize = 0;
    proof {
        assert(secrets_view(secrets@).skip(0) =~= secrets_view(secrets@));
    }
    while i < secrets.len()
        invariant
            i <= secrets@.len(),
            inject_all_spec(command@, secrets_view(secrets@)) == inject_all_spec(
                cur@,
                secrets_view(secrets@).skip(i as int),
            ),
        decreases secrets@.len() - i,
    {
        let ghost pre = secrets_view(secrets@).skip(i as int);
        proof {
            assert(pre[0] == (secrets@[i as int].0@, secrets@[i as int].1@));
            assert(pre.drop_first() =~= secrets_view(secrets@).skip(i + 1));
        }
        let mut ph: Vec<char> = str_to_chars("{{");
        let name_chars = str_to_chars(secrets[i].0.as_str());
        append_range(&mut ph, &name_chars, 0, name_chars.len());
        let mut close = str_to_chars("}}");
        ph.append(&mut close);
        proof {
            assert(name_chars@.subrange(0, name_chars@.len() as int) =~= name_chars@);
            assert(ph@ =~= placeholder_of(secrets@[i as int].0@));
        }
        let value_chars = str_to_chars(secrets[i].1.as_str());
        cur = replace_all(&cur, &ph, &value_chars);
        i = i + 1;
    }
    proof {
        assert(secrets_view(secrets@).skip(secrets@.len() as int) =~= Seq::<(
            Seq<char>,
            Seq<char>,
        )>::empty());
    }
    chars_to_string(&cur)
}

/// The secret stored under `path` in `v` decrypts to exactly `value`.
pub open spec fn resolves_to(v: crate::vault::Vault, path: Seq<char>, value: Seq<char>) -> bool {
    v.secrets().contains_key(path) && crate::crypto::decryption_of(v.secrets()[path].0, v.key())
        == Some(vstd::utf8::encode_utf8(value))
}

/// The secret and variable parts of an env specification.
pub open spec fn env_spec_parts(s: Seq<char>) -> (Seq<char>, Seq<char>) {
    match split_once_spec(s, ':') {
        Some(parts) => parts,
        None => (s, crate::vault::name_only_spec(s)),
    }
}

/// The name components of a list of name/value pairs.
pub open spec fn pair_names(s: Seq<(String, String)>) -> Seq<Seq<char>> {
    Seq::new(s.len(), |i: int| s[i].0@)
}

/// Everything the exec pipeline resolves before a child process starts:
/// the quoted command string with placeholders already substituted, the
/// environment variables to set for the child, and the full name-to-value
/// list to redact the child's output with.
pub struct ExecPlan {
    /// The rebuilt command string, quoted and with every `{{NAME}}`
    /// placeholder replaced by its secret's plaintext.
    pub command: String,
    /// The environment variables to set for the child, one per requested
    /// env specification, in order.
    pub env_vars: Vec<(String, String)>,
    /// The union of all resolved secrets for output redaction: env-injected
    /// secrets under their final variable names, then placeholder-injected
    /// secrets under their own names.
    pub secrets: Vec<(String, String)>,
}

/// Resolve every secret an exec invocation references, before anything
/// runs: each `--env` specification against the vault, and each `{{NAME}}`
/// placeholder of the rebuilt command string (reusing an already resolved
/// env path of the same name).  Any unresolved reference is a fatal
/// `SecretNotFound`; no partial resolution is ever returned.  An
/// invocation that references no secret at all consults nothing and always
/// succeeds, so it behaves like a plain shell invocation.
pub fn prepare_exec(
    vault: &crate::vault::Vault,
    env_secrets: &Vec<String>,
    command_parts: &Vec<String>,
) -> (r: Result<ExecPlan, Error>)
    ensures
        match r {
            Ok(plan) => {
                let cmd0 = join_quoted_spec(strings_view(command_parts@));
                let wanted = dedup_keep_first(scan_placeholders_spec(cmd0));
                let ph = plan.secrets@.skip(plan.env_vars@.len() as int);
                &&& plan.env_vars@.len() == env_secrets@.len()
                &&& forall|i: int|
                    0 <= i < env_secrets@.len() ==> (#[trigger] plan.env_vars@[i]).0@
                        == env_spec_parts(env_secrets@[i]@).1 && resolves_to(
                        *vault,
                        env_spec_parts(env_secrets@[i]@).0,
                        plan.env_vars@[i].1@,
                    )
                &&& plan.secrets@.len() == plan.env_vars@.len() + wanted.len()
                &&& forall|i: int|
                    0 <= i < plan.env_vars@.len() ==> plan.secrets@[i] == #[trigger] plan.env_vars@[i]
                &&& pair_names(ph) == wanted
                &&& forall|i: int|
                    0 <= i < ph.len() ==> resolves_to(
                        *vault,
                        (#[trigger] ph[i]).0@,
                        ph[i].1@,
                    )
                &&& plan.command@ == inject_all_spec(cmd0, secrets_view(ph))
            },
            Err(e) => {
                let cmd0 = join_quoted_spec(strings_view(command_parts@));
                let wanted = dedup_keep_first(scan_placeholders_spec(cmd0));
                &&& (e is SecretNotFound || e is Decryption || e is Storage)
                &&& (e is SecretNotFound ==> (exists|i: int|
                    0 <= i < env_secrets@.len() && !vault.secrets().contains_key(
                        env_spec_parts(#[trigger] env_secrets@[i]@).0,
                    )) || (exists|n: Seq<char>|
                    wanted.contains(n) && !vault.secrets().contains_key(n)))
            },
        },
        env_secrets@.len() == 0 && dedup_keep_first(
            scan_placeholders_spec(join_quoted_spec(strings_view(command_parts@))),
        ).len() == 0 ==> r is Ok,
{
    let ghost cmd0_spec = join_quoted_spec(strings_view(command_parts@));
    let command0 = build_command(command_parts);

    let mut env_vars: Vec<(String, String)> = Vec::new();
    let mut paths: Vec<String> = Vec::new();
    let mut i: usize = 0;
    while i < env_secrets.len()
        invariant
            i <= env_secrets@.len(),
            env_vars@.len() == i,
            paths@.len() == i,
            forall|k: int|
                0 <= k < i ==> (#[trigger] paths@[k])@ == env_spec_parts(env_secrets@[k]@).0,
            forall|k: int|
                0 <= k < i ==> (#[trigger] env_vars@[k]).0@ == env_spec_parts(env_secrets@[k]@).1
                    && resolves_to(*vault, env_spec_parts(env_secrets@[k]@).0, env_vars@[k].1@),
        decreases env_secrets@.len() - i,
    {
        let parsed = parse_env_spec(env_secrets[i].as_str());
        let path = parsed.0;
        let var = parsed.1;
        match vault.get(path.as_str()) {
            Ok(value) => {
                paths.push(path);
                env_vars.push((var, value));
            },
            Err(e) => {
                proof {
                    if e is SecretNotFound {
                        assert(!vault.secrets().contains_key(
                            env_spec_parts(env_secrets@[i as int]@).0,
                        ));
                    }
                }
                return Err(e);
            },
        }
        i = i + 1;
    }

    let names = parse_placeholders(command0.as_str());
    let ghost wanted = dedup_keep_first(scan_placeholders_spec(cmd0_spec));
    let mut placeholders: Vec<(String, String)> = Vec::new();
    let mut j: usize = 0;
    while j < names.len()
        invariant
            j <= names@.len(),
            wanted == dedup_keep_first(
                scan_placeholders_spec(join_quoted_spec(strings_view(command_parts@))),
            ),
            strings_view(names@) == wanted,
            placeholders@.len() == j,
            paths@.len() == env_secrets@.len(),
            forall|k: int|
                0 <= k < paths@.len() ==> (#[trigger] paths@[k])@ == env_spec_parts(
                    env_secrets@[k]@,
                ).0,
            forall|k: int|
                0 <= k < env_vars@.len() ==> resolves_to(
                    *vault,
                    env_spec_parts(env_secrets@[k]@).0,
                    (#[trigger] env_vars@[k]).1@,
                ),
            env_vars@.len() == env_secrets@.len(),
            forall|k: int|
                0 <= k < j ==> (#[trigger] placeholders@[k]).0@ == names@[k]@ && resolves_to(
                    *vault,
                    placeholders@[k].0@,
                    placeholders@[k].1@,
                ),
        decreases names@.len() - j,
    {
        let mut reused: Option<String> = None;
        let mut k: usize = 0;
        while k < paths.len()
            invariant
                k <= paths@.len(),
                paths@.len() == env_vars@.len(),
                j < names@.len(),
                forall|t: int|
                    0 <= t < env_vars@.len() ==> resolves_to(
                        *vault,
                        (#[trigger] paths@[t])@,
                        env_vars@[t].1@,
                    ),
                match reused {
                    Some(v) => resolves_to(*vault, names@[j as int]@, v@),
                    None => true,
                },
            decreases paths@.len() - k,
        {
            if reused.is_none() && paths[k].eq(&names[j]) {
                reused = Some(env_vars[k].1.clone());
            }
            k = k + 1;
        }
        let name = String::from_str(names[j].as_str());
        match reused {
            Some(v) => {
                placeholders.push((name, v));
            },
            None => {
                match vault.get(name.as_str()) {
                    Ok(value) => {
                        placeholders.push((name, value));
                    },
                    Err(e) => {
                        proof {
                            if e is SecretNotFound {
                                assert(strings_view(names@)[j as int] == names@[j as int]@);
                                assert(wanted.contains(names@[j as int]@));
                                assert(!vault.secrets().contains_key(names@[j as int]@));
                                assert(exists|n: Seq<char>|
                                    wanted.contains(n) && !vault.secrets().contains_key(n)) by {
                                    assert(wanted.contains(names@[j as int]@)
                                        && !vault.secrets().contains_key(names@[j as int]@));
                                }
                            }
                        }
                        return Err(e);
                    },
                }
            },
        }
        j = j + 1;
    }

    let injected = inject_secrets(command0.as_str(), &placeholders);

    let mut all: Vec<(String, String)> = Vec::new();
    let mut a: usize = 0;
    while a < env_vars.len()
        invariant
            a <= env_vars@.len(),
            all@.len() == a,
            forall|k: int| 0 <= k < a ==> all@[k] == #[trigger] env_vars@[k],
        decreases env_vars@.len() - a,
    {
        let pair = (env_vars[a].0.clone(), env_vars[a].1.clone());
        all.push(pair);
        a = a + 1;
    }
    let mut b: usize = 0;
    while b < placeholders.len()
        invariant
            b <= placeholders@.len(),
            all@.len() == env_vars@.len() + b,
            forall|k: int|
                0 <= k < env_vars@.len() ==> all@[k] == #[trigger] env_vars@[k],
            forall|k: int|
                0 <= k < b ==> all@[env_vars@.len() + k] == #[trigger] placeholders@[k],
        decreases placeholders@.len() - b,
    {
        let pair = (placeholders[b].0.clone(), placeholders[b].1.clone());
        all.push(pair);
        b = b + 1;
    }
    proof {
        assert(all@.skip(env_vars@.len() as int) =~= placeholders@);
        assert(pair_names(placeholders@) =~= strings_view(names@));
        assert(secrets_view(placeholders@) =~= secrets_view(all@.skip(env_vars@.len() as int)));
    }
    Ok(ExecPlan { command: injected, env_vars, secrets: all })
}

/// Exit status reported for a finished child process: the code the OS gives
/// when the child exited normally, or a default failure code when the child
/// was killed by a signal and no code is available.
pub fn exit_code_of(code: Option<i32>) -> (r: i32)
    ensures
        match code {
            Some(c) => r == c,
            None => r == 1,
        },
{
    match code {
        Some(c) => c,
        None => 1,
    }
}

/// The tail after `i` tokens of the full list equals the tail after `i - 1`
/// tokens of the list without its first token.
proof fn lemma_join_tail_shift(parts: Seq<Seq<char>>, i: int)
    requires
        1 <= i,
        1 <= parts.len(),
    ensures
        join_tail(parts, i) == join_tail(parts.drop_first(), i - 1),
    decreases parts.len() - i,
{
    if i >= parts.len() {
        assert(join_tail(parts, i) =~= Seq::<char>::empty());
        assert(join_tail(parts.drop_first(), i - 1) =~= Seq::<char>::empty());
    } else {
        lemma_join_tail_shift(parts, i + 1);
        assert(parts.drop_first()[i - 1] == parts[i]);
        assert(join_tail(parts.drop_first(), i - 1) =~= seq![' '] + shell_quote_spec(parts[i])
            + join_tail(parts.drop_first(), i));
    }
}

} // verus!
