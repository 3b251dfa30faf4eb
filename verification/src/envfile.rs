use vstd::prelude::*;

use crate::secret_gen::is_alnum_char;
use crate::text::{
    append_range, chars_to_string, has_char, occurs_in, replace_all, replace_all_spec,
    split_once_char, split_once_spec, starts_with_chars, str_to_chars, trim_chars, trim_spec,
};

verus! {

// Reading and writing `.env`-style files: one `NAME=value` assignment per
// line, values quoted when they hold characters that a shell would
// interpret.

/// The escape chain applied to the interior of a quoted value when reading:
/// `\n`, `\"`, `\'`, `\$` and `\\` become the characters they stand for, in
/// that order of passes.
pub open spec fn unescape_spec(inner: Seq<char>) -> Seq<char> {
    let r1 = replace_all_spec(inner, seq!['\\', 'n'], seq!['\n']);
    let r2 = replace_all_spec(r1, seq!['\\', '"'], seq!['"']);
    let r3 = replace_all_spec(r2, seq!['\\', '\''], seq!['\'']);
    let r4 = replace_all_spec(r3, seq!['\\', '$'], seq!['$']);
    replace_all_spec(r4, seq!['\\', '\\'], seq!['\\'])
}

/// A raw `.env` value after trimming and unquoting: a value wrapped in
/// matching double or single quotes loses them and has its escapes undone;
/// anything else is kept as trimmed.
pub open spec fn unquote_spec(v: Seq<char>) -> Seq<char> {
    let t = trim_spec(v);
    if t.len() >= 2 && ((t[0] == '"' && t[t.len() - 1] == '"') || (t[0] == '\'' && t[t.len() - 1]
        == '\'')) {
        unescape_spec(t.subrange(1, t.len() - 1))
    } else {
        t
    }
}

/// Trim and unquote a raw `.env` value, exactly as [`unquote_spec`]
/// describes.
pub fn unquote_env_value(value: &str) -> (r: String)
    ensures
        r@ == unquote_spec(value@),
{
    let chars = str_to_chars(value);
    let t = trim_chars(&chars);
    let quoted = t.len() >= 2 && ((t[0] == '"' && t[t.len() - 1] == '"') || (t[0] == '\'' && t[t.len()
        - 1] == '\''));
    if quoted {
        let mut inner: Vec<char> = Vec::new();
        append_range(&mut inner, &t, 1, t.len() - 1);
        proof {
            assert(t@.subrange(1, t@.len() - 1) == inner@);
        }
        let r1 = replace_all(&inner, &str_to_chars("\\n"), &str_to_chars("\n"));
        let r2 = replace_all(&r1, &str_to_chars("\\\""), &str_to_chars("\""));
        let r3 = replace_all(&r2, &str_to_chars("\\'"), &str_to_chars("'"));
        let r4 = replace_all(&r3, &str_to_chars("\\$"), &str_to_chars("$"));
        let r5 = replace_all(&r4, &str_to_chars("\\\\"), &str_to_chars("\\"));
        proof {
            reveal_strlit("\\n");
            reveal_strlit("\n");
            reveal_strlit("\\\"");
            reveal_strlit("\"");
            reveal_strlit("\\'");
            reveal_strlit("'");
            reveal_strlit("\\$");
            reveal_strlit("$");
            reveal_strlit("\\\\");
            reveal_strlit("\\");
            assert("\\n"@ =~= seq!['\\', 'n']);
            assert("\n"@ =~= seq!['\n']);
            assert("\\\""@ =~= seq!['\\', '"']);
            assert("\""@ =~= seq!['"']);
            assert("\\'"@ =~= seq!['\\', '\'']);
            assert("'"@ =~= seq!['\'']);
            assert("\\$"@ =~= seq!['\\', '$']);
            assert("$"@ =~= seq!['$']);
            assert("\\\\"@ =~= seq!['\\', '\\']);
            assert("\\"@ =~= seq!['\\']);
        }
        chars_to_string(&r5)
    } else {
        chars_to_string(&t)
    }
}

/// A value needs quoting in a `.env` file when it holds a space, a quote, a
/// dollar sign, a newline or a hash.
pub open spec fn needs_quoting(v: Seq<char>) -> bool {
    v.contains(' ') || v.contains('"') || v.contains('\'') || v.contains('$') || v.contains('\n')
        || v.contains('#')
}

/// A value as written to a `.env` file: wrapped in double quotes with
/// backslash, double quote, dollar and newline escaped when it needs
/// quoting, verbatim otherwise.
pub open spec fn quote_env_spec(v: Seq<char>) -> Seq<char> {
    if needs_quoting(v) {
        let e1 = replace_all_spec(v, seq!['\\'], seq!['\\', '\\']);
        let e2 = replace_all_spec(e1, seq!['"'], seq!['\\', '"']);
        let e3 = replace_all_spec(e2, seq!['$'], seq!['\\', '$']);
        let e4 = replace_all_spec(e3, seq!['\n'], seq!['\\', 'n']);
        seq!['"'] + e4 + seq!['"']
    } else {
        v
    }
}

/// Quote a value for a `.env` file, exactly as [`quote_env_spec`]
/// describes.
pub fn quote_env_value(value: &str) -> (r: String)
    ensures
        r@ == quote_env_spec(value@),
{
    let v = str_to_chars(value);
    let out = quote_env_chars(&v);
    chars_to_string(&out)
}

/// Quote a value given as characters.
fn quote_env_chars(v: &Vec<char>) -> (out: Vec<char>)
    ensures
        out@ == quote_env_spec(v@),
{
    let needs = has_char(v, ' ') || has_char(v, '"') || has_char(v, '\'') || has_char(v, '$')
        || has_char(v, '\n') || has_char(v, '#');
    if !needs {
        let mut out: Vec<char> = Vec::new();
        append_range(&mut out, v, 0, v.len());
        proof {
            assert(v@.subrange(0, v@.len() as int) =~= v@);
        }
        return out;
    }
    let e1 = replace_all(v, &str_to_chars("\\"), &str_to_chars("\\\\"));
    let e2 = replace_all(&e1, &str_to_chars("\""), &str_to_chars("\\\""));
    let e3 = replace_all(&e2, &str_to_chars("$"), &str_to_chars("\\$"));
    let e4 = replace_all(&e3, &str_to_chars("\n"), &str_to_chars("\\n"));
    proof {
        reveal_strlit("\\");
        reveal_strlit("\\\\");
        reveal_strlit("\"");
        reveal_strlit("\\\"");
        reveal_strlit("$");
        reveal_strlit("\\$");
        reveal_strlit("\n");
        reveal_strlit("\\n");
        assert("\\"@ =~= seq!['\\']);
        assert("\\\\"@ =~= seq!['\\', '\\']);
        assert("\""@ =~= seq!['"']);
        assert("\\\""@ =~= seq!['\\', '"']);
        assert("$"@ =~= seq!['$']);
        assert("\\$"@ =~= seq!['\\', '$']);
        assert("\n"@ =~= seq!['\n']);
        assert("\\n"@ =~= seq!['\\', 'n']);
    }
    let mut out: Vec<char> = Vec::new();
    out.push('"');
    let mut mid = e4;
    out.append(&mut mid);
    out.push('"');
    proof {
        assert(out@ =~= quote_env_spec(v@));
    }
    out
}

/// `l` without a leading `export ` marker.
pub open spec fn strip_export(l: Seq<char>) -> Seq<char> {
    if l.len() >= 7 && l.subrange(0, 7) == "export "@ {
        l.skip(7)
    } else {
        l
    }
}

/// A usable variable name in a `.env` line: non-empty, ASCII letters,
/// digits and underscores.
pub open spec fn valid_env_name(n: Seq<char>) -> bool {
    n.len() > 0 && forall|i: int|
        0 <= i < n.len() ==> is_alnum_char(#[trigger] n[i]) || n[i] == '_'
}

/// What a `.env` line means: after dropping an `export ` marker, the part
/// before the first `=` (trimmed) names the variable and the part after it
/// (trimmed, unquoted) is its value; a line without `=` or with an unusable
/// name means nothing.
pub open spec fn parse_env_line_spec(line: Seq<char>) -> Option<(Seq<char>, Seq<char>)> {
    let l = strip_export(line);
    match split_once_spec(l, '=') {
        None => None,
        Some(parts) => {
            let name = trim_spec(parts.0);
            if valid_env_name(name) {
                Some((name, unquote_spec(parts.1)))
            } else {
                None
            }
        },
    }
}

/// Whether `n` is a usable variable name, executably.
fn valid_env_name_exec(n: &Vec<char>) -> (r: bool)
    ensures
        r == valid_env_name(n@),
{
    if n.len() == 0 {
        return false;
    }
    let mut i: usize = 0;
    while i < n.len()
        invariant
            i <= n@.len(),
            forall|k: int| 0 <= k < i ==> is_alnum_char(#[trigger] n@[k]) || n@[k] == '_',
        decreases n@.len() - i,
    {
        let c = n[i];
        if !(('A' <= c && c <= 'Z') || ('a' <= c && c <= 'z') || ('0' <= c && c <= '9') || c == '_')
        {
            return false;
        }
        i = i + 1;
    }
    true
}

/// Parse one `.env` line into a name and an unquoted value, exactly as
/// [`parse_env_line_spec`] describes.
pub fn parse_env_line(line: &str) -> (r: Option<(String, String)>)
    ensures
        match r {
            Some(p) => parse_env_line_spec(line@) == Some((p.0@, p.1@)),
            None => parse_env_line_spec(line@) is None,
        },
{
    let chars = str_to_chars(line);
    let marker = str_to_chars("export ");
    proof {
        reveal_strlit("export ");
    }
    let stripped: Vec<char> = if starts_with_chars(&chars, &marker) {
        let mut rest: Vec<char> = Vec::new();
        append_range(&mut rest, &chars, 7, chars.len());
        proof {
            assert(chars@.subrange(7, chars@.len() as int) =~= chars@.skip(7));
        }
        rest
    } else {
        let mut whole: Vec<char> = Vec::new();
        append_range(&mut whole, &chars, 0, chars.len());
        proof {
            assert(chars@.subrange(0, chars@.len() as int) =~= chars@);
        }
        whole
    };
    proof {
        assert(stripped@ == strip_export(line@));
    }
    match split_once_char(&stripped, '=') {
        None => None,
        Some(parts) => {
            let name = trim_chars(&parts.0);
            if valid_env_name_exec(&name) {
                let value = unquote_env_value(chars_to_string(&parts.1).as_str());
                Some((chars_to_string(&name), value))
            } else {
                None
            }
        },
    }
}

/// The length of the first line of `s`: the characters before its first
/// newline, or all of `s` when it has none.
pub open spec fn line_len(s: Seq<char>) -> nat
    decreases s.len(),
{
    if s.len() > 0 && s[0] != '\n' {
        1 + line_len(s.drop_first())
    } else {
        0
    }
}

/// The first line never passes the end of `s`.
pub proof fn lemma_line_len_le(s: Seq<char>)
    ensures
        line_len(s) <= s.len(),
    decreases s.len(),
{
    if s.len() > 0 && s[0] != '\n' {
        lemma_line_len_le(s.drop_first());
    }
}

/// A line without a carriage return left over from a `\r\n` ending.
pub open spec fn strip_tail_cr(l: Seq<char>) -> Seq<char> {
    if l.len() > 0 && l[l.len() - 1] == '\r' {
        l.drop_last()
    } else {
        l
    }
}

/// The lines of `s`: split at `\n`, a `\r` before the split dropped, a
/// final line ending optional.
pub open spec fn split_lines_spec(s: Seq<char>) -> Seq<Seq<char>>
    decreases s.len(),
    via split_lines_spec_decreases
{
    if s.len() == 0 {
        Seq::<Seq<char>>::empty()
    } else {
        let k = line_len(s);
        if k == s.len() {
            seq![s]
        } else {
            seq![strip_tail_cr(s.take(k as int))] + split_lines_spec(s.skip(k + 1 as int))
        }
    }
}

#[via_fn]
proof fn split_lines_spec_decreases(s: Seq<char>) {
    lemma_line_len_le(s);
}

/// The length of the first line of `t` starting at position `from`.
fn line_len_at(t: &Vec<char>, from: usize) -> (k: usize)
    requires
        from <= t@.len(),
    ensures
        k == line_len(t@.skip(from as int)),
        from + k <= t@.len(),
{
    let mut j: usize = from;
    while j < t.len() && t[j] != '\n'
        invariant
            from <= j <= t@.len(),
            line_len(t@.skip(from as int)) == j - from + line_len(t@.skip(j as int)),
        decreases t@.len() - j,
    {
        proof {
            assert(t@.skip(j as int)[0] == t@[j as int]);
            assert(t@.skip(j as int).drop_first() =~= t@.skip(j + 1));
        }
        j = j + 1;
    }
    proof {
        assert(line_len(t@.skip(j as int)) == 0);
        lemma_line_len_le(t@.skip(from as int));
    }
    j - from
}

/// The lines of `v`, exactly as [`split_lines_spec`] describes.
fn lines_of(v: &Vec<char>) -> (out: Vec<Vec<char>>)
    ensures
        crate::text::vecs_view(out@) == split_lines_spec(v@),
{
    let mut out: Vec<Vec<char>> = Vec::new();
    let mut i: usize = 0;
    proof {
        assert(v@.skip(0) =~= v@);
        assert(crate::text::vecs_view(out@) + split_lines_spec(v@) =~= split_lines_spec(v@));
    }
    while i < v.len()
        invariant
            i <= v@.len(),
            split_lines_spec(v@) == crate::text::vecs_view(out@) + split_lines_spec(
                v@.skip(i as int),
            ),
        decreases v@.len() - i,
    {
        let ghost tail = v@.skip(i as int);
        let k = line_len_at(v, i);
        if i + k == v.len() {
            let mut line: Vec<char> = Vec::new();
            append_range(&mut line, v, i, v.len());
            out.push(line);
            proof {
                assert(v@.subrange(i as int, v@.len() as int) =~= tail);
                assert(split_lines_spec(tail) =~= seq![tail]);
                assert(crate::text::vecs_view(out@) =~= crate::text::vecs_view(
                    out@.drop_last(),
                ).push(tail));
                assert(v@.skip(v@.len() as int) =~= Seq::<char>::empty());
                assert(split_lines_spec(Seq::<char>::empty()) =~= Seq::<Seq<char>>::empty());
            }
            i = v.len();
        } else {
            let stripped_len: usize = if k > 0 && v[i + k - 1] == '\r' {
                k - 1
            } else {
                k
            };
            let mut line: Vec<char> = Vec::new();
            append_range(&mut line, v, i, i + stripped_len);
            out.push(line);
            proof {
                assert(tail.take(k as int) =~= v@.subrange(i as int, i + k));
                if k > 0 && v@[i + k - 1] == '\r' {
                    assert(strip_tail_cr(tail.take(k as int)) =~= v@.subrange(
                        i as int,
                        i + k - 1,
                    ));
                } else {
                    assert(strip_tail_cr(tail.take(k as int)) =~= v@.subrange(i as int, i + k));
                }
                assert(line@ == strip_tail_cr(tail.take(k as int)));
                assert(tail.skip(k + 1) =~= v@.skip(i + k + 1));
                assert(split_lines_spec(tail) =~= seq![strip_tail_cr(tail.take(k as int))]
                    + split_lines_spec(v@.skip(i + k + 1)));
                assert(crate::text::vecs_view(out@) =~= crate::text::vecs_view(
                    out@.drop_last(),
                ).push(line@));
            }
            i = i + k + 1;
        }
    }
    proof {
        if v@.len() > 0 {
            assert(v@.skip(v@.len() as int) =~= Seq::<char>::empty());
        }
    }
    out
}

/// `l` opens with `p`.
pub open spec fn has_prefix(l: Seq<char>, p: Seq<char>) -> bool {
    l.len() >= p.len() && l.take(p.len() as int) == p
}

/// A line that assigns the variable `name`: it opens with `name=` or with
/// `export name=`.
pub open spec fn is_env_assign(l: Seq<char>, name: Seq<char>) -> bool {
    has_prefix(l, name + seq!['=']) || has_prefix(l, "export "@ + name + seq!['='])
}

/// The assignment line written for `name` and `value`.
pub open spec fn assign_line(name: Seq<char>, value: Seq<char>) -> Seq<char> {
    name + seq!['='] + quote_env_spec(value)
}

/// The lines after the update: every line assigning `name` is replaced by
/// the fresh assignment; when none does, the fresh assignment is appended.
pub open spec fn upsert_lines(lines: Seq<Seq<char>>, name: Seq<char>, value: Seq<char>) -> Seq<
    Seq<char>,
> {
    let mapped = lines.map_values(
        |l: Seq<char>|
            if is_env_assign(l, name) {
                assign_line(name, value)
            } else {
                l
            },
    );
    if exists|i: int| 0 <= i < lines.len() && is_env_assign(#[trigger] lines[i], name) {
        mapped
    } else {
        mapped.push(assign_line(name, value))
    }
}

/// Lines joined with newlines, no trailing separator.
pub open spec fn join_lines(lines: Seq<Seq<char>>) -> Seq<char>
    decreases lines.len(),
{
    if lines.len() == 0 {
        Seq::<char>::empty()
    } else if lines.len() == 1 {
        lines[0]
    } else {
        lines[0] + seq!['\n'] + join_lines(lines.drop_first())
    }
}

/// What remains of the join after the first `i` lines.
pub open spec fn join_lines_tail(lines: Seq<Seq<char>>, i: int) -> Seq<char>
    decreases lines.len() - i,
{
    if i < 0 || i >= lines.len() {
        Seq::<char>::empty()
    } else {
        seq!['\n'] + lines[i] + join_lines_tail(lines, i + 1)
    }
}

/// The join of a non-empty line list is its first line, then the tail.
proof fn lemma_join_lines_unfold(lines: Seq<Seq<char>>)
    ensures
        lines.len() > 0 ==> join_lines(lines) == lines[0] + join_lines_tail(lines, 1),
    decreases lines.len(),
{
    if lines.len() == 0 {
    } else if lines.len() == 1 {
        assert(join_lines_tail(lines, 1) =~= Seq::<char>::empty());
        assert(lines[0] + Seq::<char>::empty() =~= lines[0]);
    } else {
        lemma_join_lines_unfold(lines.drop_first());
        assert(lines.drop_first()[0] == lines[1]);
        lemma_join_lines_tail_shift(lines, 2);
        assert(join_lines(lines) =~= lines[0] + seq!['\n'] + join_lines(lines.drop_first()));
        assert(join_lines(lines.drop_first()) =~= lines[1] + join_lines_tail(lines, 2));
        assert(lines[0] + join_lines_tail(lines, 1) =~= lines[0] + seq!['\n'] + (lines[1]
            + join_lines_tail(lines, 2)));
    }
}

/// The tail after `i` lines equals the tail after `i - 1` lines of the list
/// without its first line.
proof fn lemma_join_lines_tail_shift(lines: Seq<Seq<char>>, i: int)
    requires
        1 <= i,
        1 <= lines.len(),
    ensures
        join_lines_tail(lines, i) == join_lines_tail(lines.drop_first(), i - 1),
    decreases lines.len() - i,
{
    if i >= lines.len() {
        assert(join_lines_tail(lines, i) =~= Seq::<char>::empty());
        assert(join_lines_tail(lines.drop_first(), i - 1) =~= Seq::<char>::empty());
    } else {
        lemma_join_lines_tail_shift(lines, i + 1);
        assert(lines.drop_first()[i - 1] == lines[i]);
        assert(join_lines_tail(lines.drop_first(), i - 1) =~= seq!['\n'] + lines[i]
            + join_lines_tail(lines.drop_first(), i));
    }
}

/// The updated content of a `.env` file: each line assigning `name`
/// replaced by the fresh assignment (appended when no line does), joined
/// with newlines, with a final newline guaranteed.
pub open spec fn upsert_env_spec(content: Seq<char>, name: Seq<char>, value: Seq<char>) -> Seq<
    char,
> {
    let joined = join_lines(upsert_lines(split_lines_spec(content), name, value));
    if joined.len() > 0 && joined[joined.len() - 1] == '\n' {
        joined
    } else {
        joined + seq!['\n']
    }
}

/// Join lines with newlines.
fn join_lines_exec(lines: &Vec<Vec<char>>) -> (out: Vec<char>)
    ensures
        out@ == join_lines(crate::text::vecs_view(lines@)),
{
    let ghost lv = crate::text::vecs_view(lines@);
    let mut out: Vec<char> = Vec::new();
    let mut i: usize = 0;
    while i < lines.len()
        invariant
            lv == crate::text::vecs_view(lines@),
            i <= lines@.len(),
            i == 0 ==> out@ == Seq::<char>::empty(),
            0 < i ==> out@ + join_lines_tail(lv, i as int) == join_lines(lv),
        decreases lines@.len() - i,
    {
        let ghost prev = out@;
        if i > 0 {
            out.push('\n');
        }
        append_range(&mut out, &lines[i], 0, lines[i].len());
        proof {
            assert(lv[i as int] == lines@[i as int]@);
            assert(lines@[i as int]@.subrange(0, lines@[i as int]@.len() as int) =~= lv[i as int]);
            if i == 0 {
                lemma_join_lines_unfold(lv);
                assert(out@ =~= lv[0]);
            } else {
                assert(join_lines_tail(lv, i as int) == seq!['\n'] + lv[i as int]
                    + join_lines_tail(lv, i + 1));
                assert(prev + join_lines_tail(lv, i as int) =~= out@ + join_lines_tail(
                    lv,
                    i + 1,
                ));
            }
        }
        i = i + 1;
    }
    proof {
        if lines@.len() == 0 {
            assert(out@ =~= join_lines(lv));
        } else {
            assert(join_lines_tail(lv, lines@.len() as int) =~= Seq::<char>::empty());
            assert(out@ + join_lines_tail(lv, lines@.len() as int) =~= out@);
        }
    }
    out
}

/// Update `.env`-style content with an assignment of `value` to `name`,
/// exactly as [`upsert_env_spec`] describes: existing assignment lines for
/// `name` are replaced in place, otherwise the assignment is appended, and
/// the content always ends with a newline.
pub fn upsert_env_line(content: &str, name: &str, value: &str) -> (r: String)
    ensures
        r@ == upsert_env_spec(content@, name@, value@),
{
    let cv = str_to_chars(content);
    let lines = lines_of(&cv);
    let ghost lsv = split_lines_spec(content@);

    let name_chars = str_to_chars(name);
    let mut p1: Vec<char> = Vec::new();
    append_range(&mut p1, &name_chars, 0, name_chars.len());
    p1.push('=');
    proof {
        assert(name_chars@.subrange(0, name_chars@.len() as int) =~= name_chars@);
        assert(p1@ =~= name@ + seq!['=']);
    }
    let mut p2: Vec<char> = str_to_chars("export ");
    append_range(&mut p2, &p1, 0, p1.len());
    proof {
        assert(p1@.subrange(0, p1@.len() as int) =~= p1@);
        assert(p2@ =~= "export "@ + name@ + seq!['=']);
    }
    let value_chars = str_to_chars(value);
    let quoted_value = quote_env_chars(&value_chars);
    let mut assigned: Vec<char> = Vec::new();
    append_range(&mut assigned, &p1, 0, p1.len());
    append_range(&mut assigned, &quoted_value, 0, quoted_value.len());
    proof {
        assert(quoted_value@.subrange(0, quoted_value@.len() as int) =~= quoted_value@);
        assert(assigned@ =~= assign_line(name@, value@));
    }

    let mut mapped: Vec<Vec<char>> = Vec::new();
    let mut found = false;
    let mut i: usize = 0;
    while i < lines.len()
        invariant
            lsv == crate::text::vecs_view(lines@),
            i <= lines@.len(),
            p1@ == name@ + seq!['='],
            p2@ == "export "@ + name@ + seq!['='],
            assigned@ == assign_line(name@, value@),
            mapped@.len() == i,
            forall|k: int| 0 <= k < i ==> mapped@[k]@ == (if is_env_assign(lsv[k], name@) {
                assign_line(name@, value@)
            } else {
                lsv[k]
            }),
            found == exists|k: int| 0 <= k < i && is_env_assign(#[trigger] lsv[k], name@),
        decreases lines@.len() - i,
    {
        let is_assign = starts_with_chars(&lines[i], &p1) || starts_with_chars(&lines[i], &p2);
        proof {
            assert(lines@[i as int]@ == lsv[i as int]);
            assert(is_assign == is_env_assign(lsv[i as int], name@));
        }
        if is_assign {
            let mut a: Vec<char> = Vec::new();
            append_range(&mut a, &assigned, 0, assigned.len());
            proof {
                assert(a@ =~= assigned@);
            }
            mapped.push(a);
            found = true;
        } else {
            let mut l: Vec<char> = Vec::new();
            append_range(&mut l, &lines[i], 0, lines[i].len());
            proof {
                assert(l@ =~= lsv[i as int]);
            }
            mapped.push(l);
        }
        i = i + 1;
    }
    if !found {
        let mut a: Vec<char> = Vec::new();
        append_range(&mut a, &assigned, 0, assigned.len());
        proof {
            assert(a@ =~= assigned@);
        }
        mapped.push(a);
    }
    proof {
        assert(crate::text::vecs_view(mapped@) =~= upsert_lines(lsv, name@, value@));
    }
    let joined = join_lines_exec(&mapped);
    let needs_newline = joined.len() == 0 || joined[joined.len() - 1] != '\n';
    let mut out = joined;
    if needs_newline {
        out.push('\n');
    }
    proof {
        if needs_newline {
            assert(out@ =~= upsert_env_spec(content@, name@, value@));
        }
    }
    chars_to_string(&out)
}

/// Replace every occurrence of a placeholder string in file content with a
/// secret's value; `None` when the placeholder does not occur at all.
pub fn replace_placeholder(content: &str, placeholder: &str, value: &str) -> (r: Option<String>)
    ensures
        match r {
            Some(s) => occurs_in(content@, placeholder@) && s@ == replace_all_spec(
                content@,
                placeholder@,
                value@,
            ),
            None => !occurs_in(content@, placeholder@),
        },
{
    let c = str_to_chars(content);
    let p = str_to_chars(placeholder);
    let v = str_to_chars(value);
    if !crate::text::contains_chars(&c, &p) {
        return None;
    }
    let out = replace_all(&c, &p, &v);
    Some(chars_to_string(&out))
}

/// One line of an exported `.env` file.
pub open spec fn export_line(name: Seq<char>, value: Seq<char>) -> Seq<char> {
    name + seq!['='] + quote_env_spec(value)
}

/// Build the content of an exported `.env` file: one `NAME=value` line per
/// requested secret, in the requested order, values quoted as needed, with
/// a final newline.  A missing secret aborts the export with
/// `SecretNotFound`.
pub fn export_content(vault: &crate::vault::Vault, names: &Vec<String>) -> (r: Result<
    String,
    crate::error::Error,
>)
    ensures
        match r {
            Ok(content) => exists|vals: Seq<Seq<char>>|
                #[trigger] vals.len() == names@.len() && (forall|i: int|
                    0 <= i < names@.len() ==> crate::exec::resolves_to(
                        *vault,
                        (#[trigger] names@[i])@,
                        vals[i],
                    )) && content@ == join_lines(
                    Seq::new(names@.len(), |i: int| export_line(names@[i]@, vals[i])),
                ) + seq!['\n'],
            Err(e) => (e is SecretNotFound || e is Decryption || e is Storage) && (
            e is SecretNotFound ==> exists|i: int|
                0 <= i < names@.len() && !vault.secrets().contains_key((#[trigger] names@[i])@)),
        },
        names@.len() == 0 ==> r is Ok,
{
    let mut lines: Vec<Vec<char>> = Vec::new();
    let ghost mut vals: Seq<Seq<char>> = Seq::<Seq<char>>::empty();
    let mut i: usize = 0;
    while i < names.len()
        invariant
            i <= names@.len(),
            lines@.len() == i,
            vals.len() == i,
            forall|k: int|
                0 <= k < i ==> crate::exec::resolves_to(*vault, (#[trigger] names@[k])@, vals[k]),
            forall|k: int|
                0 <= k < i ==> (#[trigger] lines@[k])@ == export_line(names@[k]@, vals[k]),
        decreases names@.len() - i,
    {
        let value = match vault.get(names[i].as_str()) {
            Ok(v) => v,
            Err(e) => {
                proof {
                    if e is SecretNotFound {
                        assert(!vault.secrets().contains_key(names@[i as int]@));
                    }
                }
                return Err(e);
            },
        };
        let name_chars = str_to_chars(names[i].as_str());
        let value_chars = str_to_chars(value.as_str());
        let quoted = quote_env_chars(&value_chars);
        let mut line: Vec<char> = Vec::new();
        append_range(&mut line, &name_chars, 0, name_chars.len());
        line.push('=');
        append_range(&mut line, &quoted, 0, quoted.len());
        proof {
            assert(name_chars@.subrange(0, name_chars@.len() as int) =~= name_chars@);
            assert(quoted@.subrange(0, quoted@.len() as int) =~= quoted@);
            assert(line@ =~= export_line(names@[i as int]@, value@));
            vals = vals.push(value@);
        }
        lines.push(line);
        i = i + 1;
    }
    let joined = join_lines_exec(&lines);
    let mut out = joined;
    out.push('\n');
    proof {
        assert(crate::text::vecs_view(lines@) =~= Seq::new(
            names@.len(),
            |k: int| export_line(names@[k]@, vals[k]),
        ));
    }
    Ok(chars_to_string(&out))
}

/// The assignments a `.env` text holds: each line trimmed, empty lines and
/// `#` comments passed over, the rest read as assignments where they parse
/// as one.
pub open spec fn parsed_entries(lines: Seq<Seq<char>>) -> Seq<(Seq<char>, Seq<char>)>
    decreases lines.len(),
{
    if lines.len() == 0 {
        Seq::<(Seq<char>, Seq<char>)>::empty()
    } else {
        let rest = parsed_entries(lines.drop_first());
        let t = trim_spec(lines[0]);
        if t.len() == 0 || t[0] == '#' {
            rest
        } else {
            match parse_env_line_spec(t) {
                Some(p) => seq![p] + rest,
                None => rest,
            }
        }
    }
}

/// Which assignments an import stores and which it passes over, given the
/// names already taken: an entry whose name is taken is skipped; any other
/// is imported and takes its name for the entries after it.
pub open spec fn import_split(dom: Set<Seq<char>>, entries: Seq<(Seq<char>, Seq<char>)>) -> (
    Seq<(Seq<char>, Seq<char>)>,
    Seq<Seq<char>>,
)
    decreases entries.len(),
{
    if entries.len() == 0 {
        (Seq::<(Seq<char>, Seq<char>)>::empty(), Seq::<Seq<char>>::empty())
    } else if dom.contains(entries[0].0) {
        let rest = import_split(dom, entries.drop_first());
        (rest.0, seq![entries[0].0] + rest.1)
    } else {
        let rest = import_split(dom.insert(entries[0].0), entries.drop_first());
        (seq![entries[0]] + rest.0, rest.1)
    }
}

/// Import every assignment of a `.env` text into the vault: entries whose
/// names are already stored are skipped, the rest are created, first
/// occurrence winning among duplicates.  Returns the imported and the
/// skipped names, in file order.  Secrets already stored are never touched.
pub fn import_plan(vault: &mut crate::vault::Vault, content: &str) -> (r: Result<
    (Vec<String>, Vec<String>),
    crate::error::Error,
>)
    ensures
        final(vault).key() == old(vault).key(),
        forall|n: Seq<char>|
            #[trigger] old(vault).secrets().contains_key(n) ==> final(vault).secrets().contains_key(
                n,
            ) && final(vault).secrets()[n] == old(vault).secrets()[n],
        r matches Ok(p) ==> ({
            let entries = parsed_entries(split_lines_spec(content@));
            let split = import_split(old(vault).secrets().dom(), entries);
            &&& crate::text::strings_view(p.0@) == Seq::new(split.0.len(), |k: int| split.0[k].0)
            &&& crate::text::strings_view(p.1@) == split.1
            &&& forall|k: int|
                0 <= k < split.0.len() ==> final(vault).secrets().contains_key(
                    (#[trigger] split.0[k]).0,
                ) && crate::crypto::is_ciphertext_of(
                    final(vault).secrets()[split.0[k].0].0,
                    vstd::utf8::encode_utf8(split.0[k].1),
                    old(vault).key(),
                )
            &&& forall|n: Seq<char>|
                final(vault).secrets().contains_key(n) ==> old(vault).secrets().contains_key(n)
                    || Seq::new(split.0.len(), |k: int| split.0[k].0).contains(n)
        }),
        r matches Err(e) ==> (e is InvalidSecretName || e is Encryption || e is Storage),
        parsed_entries(split_lines_spec(content@)).len() == 0 ==> r is Ok,
{
    let cv = str_to_chars(content);
    let lines = lines_of(&cv);
    let ghost lv = split_lines_spec(content@);
    let ghost old_dom = old(vault).secrets().dom();
    let ghost full = import_split(old_dom, parsed_entries(lv));

    let mut imported: Vec<String> = Vec::new();
    let mut skipped: Vec<String> = Vec::new();
    let ghost mut ipairs: Seq<(Seq<char>, Seq<char>)> = Seq::<(Seq<char>, Seq<char>)>::empty();
    let mut i: usize = 0;
    proof {
        assert(crate::text::vecs_view(lines@).skip(0) =~= crate::text::vecs_view(lines@));
    }
    while i < lines.len()
        invariant
            i <= lines@.len(),
            lv == crate::text::vecs_view(lines@),
            lv == split_lines_spec(content@),
            old_dom == old(vault).secrets().dom(),
            full == import_split(old_dom, parsed_entries(lv)),
            vault.key() == old(vault).key(),
            forall|n: Seq<char>|
                #[trigger] old(vault).secrets().contains_key(n) ==> vault.secrets().contains_key(
                    n,
                ) && vault.secrets()[n] == old(vault).secrets()[n],
            full.0 == ipairs + import_split(
                vault.secrets().dom(),
                parsed_entries(lv.skip(i as int)),
            ).0,
            full.1 == crate::text::strings_view(skipped@) + import_split(
                vault.secrets().dom(),
                parsed_entries(lv.skip(i as int)),
            ).1,
            imported@.len() == ipairs.len(),
            forall|k: int| 0 <= k < ipairs.len() ==> (#[trigger] imported@[k])@ == ipairs[k].0,
            forall|k: int|
                0 <= k < ipairs.len() ==> vault.secrets().contains_key((#[trigger] ipairs[k]).0)
                    && crate::crypto::is_ciphertext_of(
                    vault.secrets()[ipairs[k].0].0,
                    vstd::utf8::encode_utf8(ipairs[k].1),
                    old(vault).key(),
                ),
            forall|n: Seq<char>|
                vault.secrets().contains_key(n) ==> old(vault).secrets().contains_key(n)
                    || ipairs_names(ipairs).contains(n),
        decreases lines@.len() - i,
    {
        let ghost tail_lines = lv.skip(i as int);
        let ghost dom0 = vault.secrets().dom();
        proof {
            assert(tail_lines[0] == lv[i as int]);
            assert(tail_lines.drop_first() =~= lv.skip(i + 1));
        }
        let t = trim_chars(&lines[i]);
        let passed_over: bool = t.len() == 0 || t[0] == '#';
        if passed_over {
            proof {
                assert(parsed_entries(tail_lines) == parsed_entries(lv.skip(i + 1)));
            }
            i = i + 1;
            continue ;
        }
        let line_str = chars_to_string(&t);
        match parse_env_line(line_str.as_str()) {
            None => {
                proof {
                    assert(parsed_entries(tail_lines) == parsed_entries(lv.skip(i + 1)));
                }
            },
            Some(parsed) => {
                let name = parsed.0;
                let value = parsed.1;
                let ghost entry = (name@, value@);
                proof {
                    assert(parsed_entries(tail_lines) == seq![entry] + parsed_entries(
                        lv.skip(i + 1),
                    ));
                    assert((seq![entry] + parsed_entries(lv.skip(i + 1))).drop_first()
                        =~= parsed_entries(lv.skip(i + 1)));
                    assert((seq![entry] + parsed_entries(lv.skip(i + 1)))[0] == entry);
                }
                let present = match vault.has_secret(name.as_str()) {
                    Ok(b) => b,
                    Err(e) => {
                        proof {
                            lemma_import_split_len(old_dom, parsed_entries(lv));
                            lemma_import_split_len(
                                vault.secrets().dom(),
                                parsed_entries(lv.skip(i as int)),
                            );
                            assert(parsed_entries(lv.skip(i as int)).len() >= 1);
                            assert(parsed_entries(lv).len() >= 1);
                        }
                        return Err(e);
                    },
                };
                if present {
                    proof {
                        assert(dom0.contains(entry.0));
                        assert(full.1 =~= crate::text::strings_view(skipped@).push(entry.0)
                            + import_split(dom0, parsed_entries(lv.skip(i + 1))).1);
                    }
                    skipped.push(name);
                    proof {
                        assert(crate::text::strings_view(skipped@)
                            =~= crate::text::strings_view(skipped@.drop_last()).push(entry.0));
                    }
                } else {
                    let ghost vpre = *vault;
                    match vault.create(name.as_str(), value.as_str()) {
                        Ok(u) => {
                            let _ = u;
                        },
                        Err(e) => {
                            proof {
                                lemma_import_split_len(old_dom, parsed_entries(lv));
                                lemma_import_split_len(
                                    vault.secrets().dom(),
                                    parsed_entries(lv.skip(i as int)),
                                );
                                assert(parsed_entries(lv.skip(i as int)).len() >= 1);
                                assert(parsed_entries(lv).len() >= 1);
                            }
                            return Err(e);
                        },
                    };
                    proof {
                        assert(!dom0.contains(entry.0));
                        assert(vault.secrets().dom() =~= dom0.insert(entry.0));
                        assert(full.0 =~= (ipairs.push(entry)) + import_split(
                            vault.secrets().dom(),
                            parsed_entries(lv.skip(i + 1)),
                        ).0);
                        let ghost prev_pairs = ipairs;
                        ipairs = ipairs.push(entry);
                        assert forall|n: Seq<char>|
                            vault.secrets().contains_key(n) implies old(
                            vault,
                        ).secrets().contains_key(n) || ipairs_names(ipairs).contains(n) by {
                            lemma_pair_names_push(prev_pairs, entry, n);
                            assert(vpre.secrets().contains_key(n) || n == entry.0);
                        }
                        assert forall|k: int| 0 <= k < ipairs.len() implies vault.secrets(
                        ).contains_key((#[trigger] ipairs[k]).0) && crate::crypto::is_ciphertext_of(
                            vault.secrets()[ipairs[k].0].0,
                            vstd::utf8::encode_utf8(ipairs[k].1),
                            old(vault).key(),
                        ) by {
                            if k < ipairs.len() - 1 {
                                assert(ipairs[k] == prev_pairs[k]);
                                assert(vpre.secrets().contains_key(prev_pairs[k].0));
                                if prev_pairs[k].0 != entry.0 {
                                    assert(vault.secrets()[prev_pairs[k].0]
                                        == vpre.secrets()[prev_pairs[k].0]);
                                }
                            }
                        }
                    }
                    imported.push(name);
                }
            },
        }
        i = i + 1;
    }
    proof {
        assert(lv.skip(lv.len() as int) =~= Seq::<Seq<char>>::empty());
        assert(full.0 =~= ipairs);
        assert(full.1 =~= crate::text::strings_view(skipped@));
        assert(crate::text::strings_view(imported@) =~= Seq::new(
            full.0.len(),
            |k: int| full.0[k].0,
        ));
        assert(ipairs_names(ipairs) =~= Seq::new(full.0.len(), |k: int| full.0[k].0));
    }
    Ok((imported, skipped))
}

/// The names of a list of parsed assignments.
pub open spec fn ipairs_names(s: Seq<(Seq<char>, Seq<char>)>) -> Seq<Seq<char>> {
    Seq::new(s.len(), |i: int| s[i].0)
}

/// The split sends every entry to one side: imported and skipped together
/// count the entries.
proof fn lemma_import_split_len(dom: Set<Seq<char>>, entries: Seq<(Seq<char>, Seq<char>)>)
    ensures
        import_split(dom, entries).0.len() + import_split(dom, entries).1.len() == entries.len(),
    decreases entries.len(),
{
    if entries.len() > 0 {
        if dom.contains(entries[0].0) {
            lemma_import_split_len(dom, entries.drop_first());
        } else {
            lemma_import_split_len(dom.insert(entries[0].0), entries.drop_first());
        }
    }
}

/// Appending one assignment extends the name list by exactly its name.
proof fn lemma_pair_names_push(s: Seq<(Seq<char>, Seq<char>)>, e: (Seq<char>, Seq<char>), n: Seq<char>)
    ensures
        ipairs_names(s.push(e)).contains(n) <==> (ipairs_names(s).contains(n) || n == e.0),
{
    let sp = ipairs_names(s.push(e));
    assert(sp.len() == s.len() + 1);
    if ipairs_names(s).contains(n) {
        let i = choose|i: int| 0 <= i < s.len() && ipairs_names(s)[i] == n;
        assert(sp[i] == n);
    }
    if n == e.0 {
        assert(sp[s.len() as int] == n);
    }
    if sp.contains(n) {
        let i = choose|i: int| 0 <= i < sp.len() && sp[i] == n;
        if i < s.len() {
            assert(ipairs_names(s)[i] == n);
        } else {
            assert(n == e.0);
        }
    }
}

} // verus!
