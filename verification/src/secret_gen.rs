use vstd::prelude::*;

use crate::text::{chars_eq, chars_to_string, str_to_chars};

verus! {

// Random secret generation from a chosen character alphabet.

/// The alphabets a generated secret can draw from.
#[derive(Debug, Clone, Copy, Default)]
pub enum Charset {
    #[default]
    Alphanumeric,
    Ascii,
    Hex,
    Base64,
}

/// An ASCII uppercase letter.
pub open spec fn is_upper_char(c: char) -> bool {
    'A' <= c && c <= 'Z'
}

/// An ASCII lowercase letter.
pub open spec fn is_lower_char(c: char) -> bool {
    'a' <= c && c <= 'z'
}

/// An ASCII digit.
pub open spec fn is_digit_char(c: char) -> bool {
    '0' <= c && c <= '9'
}

/// An ASCII letter or digit.
pub open spec fn is_alnum_char(c: char) -> bool {
    is_upper_char(c) || is_lower_char(c) || is_digit_char(c)
}

/// A punctuation character of the printable-ASCII alphabet.
pub open spec fn is_symbol_char(c: char) -> bool {
    c == '!' || c == '@' || c == '#' || c == '$' || c == '%' || c == '^' || c == '&' || c == '*'
        || c == '(' || c == ')' || c == '-' || c == '_' || c == '=' || c == '+' || c == '['
        || c == ']' || c == '{' || c == '}' || c == '|' || c == ';' || c == ':' || c == ','
        || c == '.' || c == '<' || c == '>' || c == '?'
}

/// A lowercase hex digit.
pub open spec fn is_hex_char(c: char) -> bool {
    is_digit_char(c) || ('a' <= c && c <= 'f')
}

/// Membership of `c` in the alphabet of `cs`.
pub open spec fn in_charset(c: char, cs: Charset) -> bool {
    match cs {
        Charset::Alphanumeric => is_alnum_char(c),
        Charset::Ascii => is_alnum_char(c) || is_symbol_char(c),
        Charset::Hex => is_hex_char(c),
        Charset::Base64 => is_alnum_char(c) || c == '+' || c == '/',
    }
}

/// The number of characters the alphabet of `cs` holds.
pub open spec fn charset_size(cs: Charset) -> int {
    match cs {
        Charset::Alphanumeric => 62,
        Charset::Ascii => 88,
        Charset::Hex => 16,
        Charset::Base64 => 64,
    }
}

/// The alphabet of `cs`, as a vector of characters of that charset.
fn alphabet(cs: Charset) -> (v: Vec<char>)
    ensures
        v@.len() == charset_size(cs),
        forall|i: int| 0 <= i < v@.len() ==> in_charset(#[trigger] v@[i], cs),
{
    let mut v: Vec<char>;
    match cs {
        Charset::Alphanumeric => {
            v = str_to_chars("ABCDEFGHIJKLMNOPQRSTUVWXYZabcdefghijklmnopqrstuvwxyz0123456789");
            proof {
                reveal_strlit("ABCDEFGHIJKLMNOPQRSTUVWXYZabcdefghijklmnopqrstuvwxyz0123456789");
                assert(v@.len() == 62);
            }
        },
        Charset::Ascii => {
            v = str_to_chars(
                "ABCDEFGHIJKLMNOPQRSTUVWXYZabcdefghijklmnopqrstuvwxyz0123456789!@#$%^&*()-_=+[]{}|;:,.<>?",
            );
            proof {
                reveal_strlit(
                    "ABCDEFGHIJKLMNOPQRSTUVWXYZabcdefghijklmnopqrstuvwxyz0123456789!@#$%^&*()-_=+[]{}|;:,.<>?",
                );
                assert(v@.len() == 88);
            }
        },
        Charset::Hex => {
            v = str_to_chars("0123456789abcdef");
            proof {
                reveal_strlit("0123456789abcdef");
                assert(v@.len() == 16);
            }
        },
        Charset::Base64 => {
            v = str_to_chars("ABCDEFGHIJKLMNOPQRSTUVWXYZabcdefghijklmnopqrstuvwxyz0123456789+/");
            proof {
                reveal_strlit("ABCDEFGHIJKLMNOPQRSTUVWXYZabcdefghijklmnopqrstuvwxyz0123456789+/");
                assert(v@.len() == 64);
            }
        },
    }
    v
}

/// Relies on rand's `thread_rng` and `Rng::gen_range`: the drawn index is
/// below `bound`; nothing beyond that bound is promised of any one outcome.
#[verifier::external_body]
fn random_index(bound: usize) -> (r: usize)
    requires
        bound > 0,
    ensures
        r < bound,
{
    rand::Rng::gen_range(&mut rand::thread_rng(), 0..bound)
}

/// A freshly drawn random string of exactly `length` characters, every one
/// of them from the alphabet of `charset`.
pub fn generate(length: usize, charset: Charset) -> (r: String)
    ensures
        r@.len() == length,
        forall|i: int| 0 <= i < r@.len() ==> in_charset(#[trigger] r@[i], charset),
{
    let chars = alphabet(charset);
    let mut out: Vec<char> = Vec::new();
    let mut i: usize = 0;
    while i < length
        invariant
            i <= length,
            out@.len() == i,
            chars@.len() == charset_size(charset),
            forall|k: int| 0 <= k < chars@.len() ==> in_charset(#[trigger] chars@[k], charset),
            forall|k: int| 0 <= k < out@.len() ==> in_charset(#[trigger] out@[k], charset),
        decreases length - i,
    {
        let idx = random_index(chars.len());
        let c = chars[idx];
        out.push(c);
        i = i + 1;
    }
    chars_to_string(&out)
}

/// The ASCII-lowercase counterpart of `c`.
pub open spec fn lower_char(c: char) -> char {
    if c == 'A' {
        'a'
    } else if c == 'B' {
        'b'
    } else if c == 'C' {
        'c'
    } else if c == 'D' {
        'd'
    } else if c == 'E' {
        'e'
    } else if c == 'F' {
        'f'
    } else if c == 'G' {
        'g'
    } else if c == 'H' {
        'h'
    } else if c == 'I' {
        'i'
    } else if c == 'J' {
        'j'
    } else if c == 'K' {
        'k'
    } else if c == 'L' {
        'l'
    } else if c == 'M' {
        'm'
    } else if c == 'N' {
        'n'
    } else if c == 'O' {
        'o'
    } else if c == 'P' {
        'p'
    } else if c == 'Q' {
        'q'
    } else if c == 'R' {
        'r'
    } else if c == 'S' {
        's'
    } else if c == 'T' {
        't'
    } else if c == 'U' {
        'u'
    } else if c == 'V' {
        'v'
    } else if c == 'W' {
        'w'
    } else if c == 'X' {
        'x'
    } else if c == 'Y' {
        'y'
    } else if c == 'Z' {
        'z'
    } else {
        c
    }
}

/// `s` with every ASCII uppercase letter lowered.
pub open spec fn lower_seq(s: Seq<char>) -> Seq<char> {
    s.map_values(|c: char| lower_char(c))
}

/// Lower every ASCII uppercase letter of `v`.
fn lower_chars(v: &Vec<char>) -> (out: Vec<char>)
    ensures
        out@ == lower_seq(v@),
{
    let mut out: Vec<char> = Vec::new();
    let mut i: usize = 0;
    while i < v.len()
        invariant
            i <= v@.len(),
            out@ =~= lower_seq(v@.take(i as int)),
        decreases v@.len() - i,
    {
        let c = v[i];
        let l: char = match c {
            'A' => 'a',
            'B' => 'b',
            'C' => 'c',
            'D' => 'd',
            'E' => 'e',
            'F' => 'f',
            'G' => 'g',
            'H' => 'h',
            'I' => 'i',
            'J' => 'j',
            'K' => 'k',
            'L' => 'l',
            'M' => 'm',
            'N' => 'n',
            'O' => 'o',
            'P' => 'p',
            'Q' => 'q',
            'R' => 'r',
            'S' => 's',
            'T' => 't',
            'U' => 'u',
            'V' => 'v',
            'W' => 'w',
            'X' => 'x',
            'Y' => 'y',
            'Z' => 'z',
            other => other,
        };
        out.push(l);
        proof {
            assert(lower_seq(v@.take(i + 1)) =~= lower_seq(v@.take(i as int)).push(
                lower_char(v@[i as int]),
            ));
        }
        i = i + 1;
    }
    proof {
        assert(v@.take(v@.len() as int) =~= v@);
    }
    out
}

/// Which charset the lowered name `l` denotes, if any.
pub open spec fn charset_named(l: Seq<char>) -> Option<Charset> {
    if l == "alphanumeric"@ {
        Some(Charset::Alphanumeric)
    } else if l == "ascii"@ {
        Some(Charset::Ascii)
    } else if l == "hex"@ {
        Some(Charset::Hex)
    } else if l == "base64"@ {
        Some(Charset::Base64)
    } else {
        None
    }
}

/// Parse a charset name, ignoring ASCII case.  Unknown names are rejected
/// with a message that repeats the offending input.
pub fn charset_from_str(s: &str) -> (r: Result<Charset, String>)
    ensures
        match r {
            Ok(cs) => charset_named(lower_seq(s@)) == Some(cs),
            Err(m) => charset_named(lower_seq(s@)) is None && m@ == "unknown charset: "@ + s@,
        },
{
    let chars = str_to_chars(s);
    let lowered = lower_chars(&chars);
    if chars_eq(&lowered, &str_to_chars("alphanumeric")) {
        Ok(Charset::Alphanumeric)
    } else if chars_eq(&lowered, &str_to_chars("ascii")) {
        Ok(Charset::Ascii)
    } else if chars_eq(&lowered, &str_to_chars("hex")) {
        Ok(Charset::Hex)
    } else if chars_eq(&lowered, &str_to_chars("base64")) {
        Ok(Charset::Base64)
    } else {
        let mut m = String::from_str("unknown charset: ");
        m.append(s);
        Err(m)
    }
}

impl core::str::FromStr for Charset {
    type Err = String;

    fn from_str(s: &str) -> Result<Charset, String> {
        charset_from_str(s)
    }
}

} // verus!
