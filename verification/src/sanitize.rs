use vstd::prelude::*;

use crate::text::{chars_to_string, occurs_in, replace_all, replace_all_spec, str_to_chars};

verus! {

// The redaction engine: replaces every occurrence of every configured secret
// value, and of its common reversible encodings, with a structured
// placeholder, so that neither the raw value nor an encoded form of it
// survives in text shown to the caller.

/// What base64's standard-alphabet padded encoding of the UTF-8 bytes of `s`
/// is.  A pure function of `s`.
pub uninterp spec fn base64_std_of(s: Seq<char>) -> Seq<char>;

/// What base64's URL-safe-alphabet padded encoding of the UTF-8 bytes of `s`
/// is.  A pure function of `s`.
pub uninterp spec fn base64_url_of(s: Seq<char>) -> Seq<char>;

/// What percent-encoding of the UTF-8 bytes of `s` is, with alphanumerics
/// and `-`, `_`, `.`, `~` kept verbatim.  A pure function of `s`.
pub uninterp spec fn percent_encoding_of(s: Seq<char>) -> Seq<char>;

/// What `String::from_utf8_lossy` decodes the given bytes to: the UTF-8
/// decoding with every invalid sequence replaced by U+FFFD.  A pure function
/// of the bytes.
pub uninterp spec fn lossy_utf8(bytes: Seq<u8>) -> Seq<char>;

/// Relies on base64's `STANDARD` engine `encode`: the result is the
/// standard padded base64 encoding of the input's bytes.
#[verifier::external_body]
fn base64_std(value: &str) -> (r: String)
    ensures
        r@ == base64_std_of(value@),
{
    base64::Engine::encode(&base64::engine::general_purpose::STANDARD, value)
}

/// Relies on base64's `URL_SAFE` engine `encode`: the result is the
/// URL-safe padded base64 encoding of the input's bytes.
#[verifier::external_body]
fn base64_url(value: &str) -> (r: String)
    ensures
        r@ == base64_url_of(value@),
{
    base64::Engine::encode(&base64::engine::general_purpose::URL_SAFE, value)
}

/// Relies on `urlencoding::encode`: the result is the percent-encoding of
/// the input's bytes, keeping alphanumerics and `-`, `_`, `.`, `~`.
#[verifier::external_body]
fn percent_encode(value: &str) -> (r: String)
    ensures
        r@ == percent_encoding_of(value@),
{
    urlencoding::encode(value).into_owned()
}

/// Relies on `String::from_utf8_lossy`: a pure function of the bytes,
/// decoding UTF-8 and substituting U+FFFD for invalid sequences.
#[verifier::external_body]
fn decode_lossy(output: &[u8]) -> (r: String)
    ensures
        r@ == lossy_utf8(output@),
{
    String::from_utf8_lossy(output).into_owned()
}

/// The placeholder written for a raw occurrence of the secret `name`.
pub open spec fn marker_plain(name: Seq<char>) -> Seq<char> {
    "[REDACTED:"@ + name + "]"@
}

/// The placeholder written for an occurrence of an `enc`-encoded form of the
/// secret `name`.
pub open spec fn marker_encoded(name: Seq<char>, enc: Seq<char>) -> Seq<char> {
    "[REDACTED:"@ + name + ":"@ + enc + "]"@
}

/// One secret applied to `t`: the raw value, then its standard base64
/// encoding, then its URL-safe base64 encoding (skipped when identical to
/// the standard one), then its percent-encoding (skipped when identical to
/// the raw value), each replaced everywhere by its placeholder.  An
/// empty value is never matched.
pub open spec fn redact_one_spec(t: Seq<char>, name: Seq<char>, value: Seq<char>) -> Seq<char> {
    if value.len() == 0 {
        t
    } else {
        let t1 = replace_all_spec(t, value, marker_plain(name));
        let b64s = base64_std_of(value);
        let t2 = if b64s.len() > 0 {
            replace_all_spec(t1, b64s, marker_encoded(name, "base64"@))
        } else {
            t1
        };
        let b64u = base64_url_of(value);
        let t3 = if b64u.len() > 0 && b64u != b64s {
            replace_all_spec(t2, b64u, marker_encoded(name, "base64url"@))
        } else {
            t2
        };
        let pe = percent_encoding_of(value);
        if pe != value {
            replace_all_spec(t3, pe, marker_encoded(name, "urlencoded"@))
        } else {
            t3
        }
    }
}

/// All secrets applied to `t`, in the order the list gives them.
pub open spec fn sanitize_spec(t: Seq<char>, secrets: Seq<(Seq<char>, Seq<char>)>) -> Seq<char>
    decreases secrets.len(),
{
    if secrets.len() == 0 {
        t
    } else {
        sanitize_spec(redact_one_spec(t, secrets[0].0, secrets[0].1), secrets.drop_first())
    }
}

/// The name/value pairs of a secrets list, as character sequences.
pub open spec fn secrets_view(secrets: Seq<(String, String)>) -> Seq<(Seq<char>, Seq<char>)> {
    Seq::new(secrets.len(), |i: int| (secrets[i].0@, secrets[i].1@))
}

/// Apply one secret to `t`, exactly as [`redact_one_spec`] describes.
fn redact_one(t: Vec<char>, name: &str, value: &str) -> (out: Vec<char>)
    ensures
        out@ == redact_one_spec(t@, name@, value@),
{
    if value.unicode_len() == 0 {
        return t;
    }
    let name_chars = str_to_chars(name);
    let value_chars = str_to_chars(value);

    let mut plain: Vec<char> = str_to_chars("[REDACTED:");
    crate::text::append_range(&mut plain, &name_chars, 0, name_chars.len());
    let mut plain_close = str_to_chars("]");
    plain.append(&mut plain_close);
    proof {
        assert(name_chars@.subrange(0, name_chars@.len() as int) =~= name@);
        assert(plain@ =~= marker_plain(name@));
    }
    let t1 = replace_all(&t, &value_chars, &plain);

    let b64s = base64_std(value);
    let b64s_chars = str_to_chars(b64s.as_str());
    let t2 = if b64s_chars.len() > 0 {
        let m = marker_for(&name_chars, "base64");
        replace_all(&t1, &b64s_chars, &m)
    } else {
        t1
    };

    let b64u = base64_url(value);
    let b64u_chars = str_to_chars(b64u.as_str());
    let t3 = if b64u_chars.len() > 0 && !b64u.eq(&b64s) {
        let m = marker_for(&name_chars, "base64url");
        replace_all(&t2, &b64u_chars, &m)
    } else {
        t2
    };

    let pe = percent_encode(value);
    if !crate::text::str_eq(pe.as_str(), value) {
        let pe_chars = str_to_chars(pe.as_str());
        let m = marker_for(&name_chars, "urlencoded");
        replace_all(&t3, &pe_chars, &m)
    } else {
        t3
    }
}

/// The placeholder `[REDACTED:<name>:<enc>]`, as characters.
fn marker_for(name_chars: &Vec<char>, enc: &str) -> (out: Vec<char>)
    ensures
        out@ == marker_encoded(name_chars@, enc@),
{
    let mut m: Vec<char> = str_to_chars("[REDACTED:");
    crate::text::append_range(&mut m, name_chars, 0, name_chars.len());
    let mut colon = str_to_chars(":");
    m.append(&mut colon);
    let mut enc_chars = str_to_chars(enc);
    m.append(&mut enc_chars);
    let mut close = str_to_chars("]");
    m.append(&mut close);
    proof {
        assert(name_chars@.subrange(0, name_chars@.len() as int) =~= name_chars@);
        assert(m@ =~= marker_encoded(name_chars@, enc@));
    }
    m
}

/// Replace every occurrence of every non-empty secret value, and of its
/// base64, URL-safe base64 and percent-encoded forms, with a structured
/// placeholder naming the secret.  Secrets are applied in list order;
/// values are matched literally, never as patterns.
pub fn sanitize(output: &str, secrets: &Vec<(String, String)>) -> (r: String)
    ensures
        r@ == sanitize_spec(output@, secrets_view(secrets@)),
{
    let mut cur: Vec<char> = str_to_chars(output);
    let mut i: usize = 0;
    proof {
        assert(secrets_view(secrets@).skip(0) =~= secrets_view(secrets@));
    }
    while i < secrets.len()
        invariant
            i <= secrets@.len(),
            sanitize_spec(output@, secrets_view(secrets@)) == sanitize_spec(
                cur@,
                secrets_view(secrets@).skip(i as int),
            ),
        decreases secrets@.len() - i,
    {
        let ghost pre = secrets_view(secrets@).skip(i as int);
        proof {
            assert(pre[0] == (secrets@[i as int].0@, secrets@[i as int].1@));
            assert(pre.drop_first() =~= secrets_view(secrets@).skip(i + 1));
        }
        let pair_name: &String = &secrets[i].0;
        let pair_value: &String = &secrets[i].1;
        cur = redact_one(cur, pair_name.as_str(), pair_value.as_str());
        i = i + 1;
    }
    proof {
        assert(secrets_view(secrets@).skip(secrets@.len() as int) =~= Seq::<(
            Seq<char>,
            Seq<char>,
        )>::empty());
    }
    chars_to_string(&cur)
}

/// A redaction marker is bracketed: non-empty, opening with `[` and
/// closing with `]`.
proof fn lemma_marker_plain_shape(name: Seq<char>)
    ensures
        marker_plain(name).len() > 0,
        marker_plain(name)[0] == '[',
        marker_plain(name)[marker_plain(name).len() - 1] == ']',
{
    reveal_strlit("[REDACTED:");
    reveal_strlit("]");
    assert(marker_plain(name)[0] == "[REDACTED:"@[0]);
    assert(marker_plain(name)[marker_plain(name).len() - 1] == "]"@[0]);
}

/// A redaction marker with an encoding tag is bracketed too.
proof fn lemma_marker_encoded_shape(name: Seq<char>, enc: Seq<char>)
    ensures
        marker_encoded(name, enc).len() > 0,
        marker_encoded(name, enc)[0] == '[',
        marker_encoded(name, enc)[marker_encoded(name, enc).len() - 1] == ']',
{
    reveal_strlit("[REDACTED:");
    reveal_strlit(":");
    reveal_strlit("]");
    assert(marker_encoded(name, enc)[0] == "[REDACTED:"@[0]);
    assert(marker_encoded(name, enc)[marker_encoded(name, enc).len() - 1] == "]"@[0]);
}

/// Applying one secret leaves no occurrence of `form`, where `form` is one
/// of the secret's four searched textual forms, or was absent to begin
/// with.  The hypotheses record the limit of single-pass literal
/// replacement: the form may not hold the marker delimiters `[` and `]`
/// and may not occur inside any of the four markers this secret can write
/// (a value that embeds marker text can survive, there as in any literal
/// replacement scheme).
proof fn lemma_redact_one_free(t: Seq<char>, name: Seq<char>, value: Seq<char>, form: Seq<char>)
    requires
        value.len() > 0,
        form.len() > 0,
        crate::text::bracket_free(form),
        !occurs_in(marker_plain(name), form),
        !occurs_in(marker_encoded(name, "base64"@), form),
        !occurs_in(marker_encoded(name, "base64url"@), form),
        !occurs_in(marker_encoded(name, "urlencoded"@), form),
        form == value || form == base64_std_of(value) || form == base64_url_of(value) || form
            == percent_encoding_of(value) || !occurs_in(t, form),
    ensures
        !occurs_in(redact_one_spec(t, name, value), form),
{
    let b64s = base64_std_of(value);
    let b64u = base64_url_of(value);
    let pe = percent_encoding_of(value);
    let m1 = marker_plain(name);
    let m2 = marker_encoded(name, "base64"@);
    let m3 = marker_encoded(name, "base64url"@);
    let m4 = marker_encoded(name, "urlencoded"@);
    lemma_marker_plain_shape(name);
    lemma_marker_encoded_shape(name, "base64"@);
    lemma_marker_encoded_shape(name, "base64url"@);
    lemma_marker_encoded_shape(name, "urlencoded"@);
    let t1 = replace_all_spec(t, value, m1);
    let t2 = if b64s.len() > 0 {
        replace_all_spec(t1, b64s, m2)
    } else {
        t1
    };
    let t3 = if b64u.len() > 0 && b64u != b64s {
        replace_all_spec(t2, b64u, m3)
    } else {
        t2
    };
    let t4 = if pe != value {
        replace_all_spec(t3, pe, m4)
    } else {
        t3
    };
    assert(redact_one_spec(t, name, value) == t4);
    if form == value {
        crate::text::lemma_replace_all_free(t, value, m1, form);
        if b64s.len() > 0 {
            crate::text::lemma_replace_all_free(t1, b64s, m2, form);
        }
        if b64u.len() > 0 && b64u != b64s {
            crate::text::lemma_replace_all_free(t2, b64u, m3, form);
        }
        if pe != value {
            crate::text::lemma_replace_all_free(t3, pe, m4, form);
        }
    } else if form == b64s {
        crate::text::lemma_replace_all_free(t1, b64s, m2, form);
        if b64u.len() > 0 && b64u != b64s {
            crate::text::lemma_replace_all_free(t2, b64u, m3, form);
        }
        if pe != value {
            crate::text::lemma_replace_all_free(t3, pe, m4, form);
        }
    } else if form == b64u {
        crate::text::lemma_replace_all_free(t2, b64u, m3, form);
        if pe != value {
            crate::text::lemma_replace_all_free(t3, pe, m4, form);
        }
    } else if form == pe {
        crate::text::lemma_replace_all_free(t3, pe, m4, form);
    } else {
        crate::text::lemma_replace_all_free(t, value, m1, form);
        if b64s.len() > 0 {
            crate::text::lemma_replace_all_free(t1, b64s, m2, form);
        }
        if b64u.len() > 0 && b64u != b64s {
            crate::text::lemma_replace_all_free(t2, b64u, m3, form);
        }
        if pe != value {
            crate::text::lemma_replace_all_free(t3, pe, m4, form);
        }
    }
}

/// A text already free of `form` stays free of it through the redaction of
/// any secrets whose markers do not contain it.
proof fn lemma_sanitize_preserves(t: Seq<char>, secrets: Seq<(Seq<char>, Seq<char>)>, form: Seq<
    char,
>)
    requires
        form.len() > 0,
        crate::text::bracket_free(form),
        !occurs_in(t, form),
        forall|j: int|
            0 <= j < secrets.len() ==> !occurs_in(marker_plain((#[trigger] secrets[j]).0), form)
                && !occurs_in(marker_encoded(secrets[j].0, "base64"@), form) && !occurs_in(
                marker_encoded(secrets[j].0, "base64url"@),
                form,
            ) && !occurs_in(marker_encoded(secrets[j].0, "urlencoded"@), form),
    ensures
        !occurs_in(sanitize_spec(t, secrets), form),
    decreases secrets.len(),
{
    if secrets.len() > 0 {
        let t1 = redact_one_spec(t, secrets[0].0, secrets[0].1);
        if secrets[0].1.len() == 0 {
            assert(t1 == t);
        } else {
            lemma_redact_one_free(t, secrets[0].0, secrets[0].1, form);
        }
        assert forall|j: int| 0 <= j < secrets.drop_first().len() implies !occurs_in(
            marker_plain((#[trigger] secrets.drop_first()[j]).0),
            form,
        ) && !occurs_in(marker_encoded(secrets.drop_first()[j].0, "base64"@), form) && !occurs_in(
            marker_encoded(secrets.drop_first()[j].0, "base64url"@),
            form,
        ) && !occurs_in(marker_encoded(secrets.drop_first()[j].0, "urlencoded"@), form) by {
            assert(secrets.drop_first()[j] == secrets[j + 1]);
        }
        lemma_sanitize_preserves(t1, secrets.drop_first(), form);
    }
}

/// Redaction is exhaustive: after sanitizing, no occurrence of any
/// configured secret's raw value, standard or URL-safe base64 encoding, or
/// percent-encoding remains, for every form that is free of the marker
/// delimiters `[` and `]` and does not occur inside a marker any listed
/// secret can write.  (A value that itself embeds marker text can recreate
/// an occurrence across a replacement boundary — the limit of literal
/// single-pass replacement, which the engine is specified to use.)
pub proof fn lemma_sanitize_exhaustive(
    t: Seq<char>,
    secrets: Seq<(Seq<char>, Seq<char>)>,
    i: int,
    form: Seq<char>,
)
    requires
        0 <= i < secrets.len(),
        secrets[i].1.len() > 0,
        form.len() > 0,
        crate::text::bracket_free(form),
        form == secrets[i].1 || form == base64_std_of(secrets[i].1) || form == base64_url_of(
            secrets[i].1,
        ) || form == percent_encoding_of(secrets[i].1),
        forall|j: int|
            0 <= j < secrets.len() ==> !occurs_in(marker_plain((#[trigger] secrets[j]).0), form)
                && !occurs_in(marker_encoded(secrets[j].0, "base64"@), form) && !occurs_in(
                marker_encoded(secrets[j].0, "base64url"@),
                form,
            ) && !occurs_in(marker_encoded(secrets[j].0, "urlencoded"@), form),
    ensures
        !occurs_in(sanitize_spec(t, secrets), form),
    decreases i,
{
    let t1 = redact_one_spec(t, secrets[0].0, secrets[0].1);
    assert forall|j: int| 0 <= j < secrets.drop_first().len() implies !occurs_in(
        marker_plain((#[trigger] secrets.drop_first()[j]).0),
        form,
    ) && !occurs_in(marker_encoded(secrets.drop_first()[j].0, "base64"@), form) && !occurs_in(
        marker_encoded(secrets.drop_first()[j].0, "base64url"@),
        form,
    ) && !occurs_in(marker_encoded(secrets.drop_first()[j].0, "urlencoded"@), form) by {
        assert(secrets.drop_first()[j] == secrets[j + 1]);
    }
    if i == 0 {
        lemma_redact_one_free(t, secrets[0].0, secrets[0].1, form);
        lemma_sanitize_preserves(t1, secrets.drop_first(), form);
    } else {
        assert(secrets.drop_first()[i - 1] == secrets[i]);
        lemma_sanitize_exhaustive(t1, secrets.drop_first(), i - 1, form);
    }
}

/// Decode raw output bytes (replacing invalid sequences, never failing) and
/// sanitize the resulting text.
pub fn sanitize_bytes(output: &[u8], secrets: &Vec<(String, String)>) -> (r: String)
    ensures
        r@ == sanitize_spec(lossy_utf8(output@), secrets_view(secrets@)),
{
    let text = decode_lossy(output);
    sanitize(text.as_str(), secrets)
}

} // verus!
