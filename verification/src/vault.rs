use vstd::prelude::*;

use crate::crypto;
use crate::error::Error;
use crate::secret_gen::{is_alnum_char, is_lower_char, is_upper_char};
use crate::store;
use crate::store::{meta_table, secrets_table};
use crate::text::{
    chars_eq, chars_to_string, lex_lt, split_once_char, split_once_spec, str_to_chars,
};
use vstd::utf8::encode_utf8;

verus! {

// The persistent name-to-secret mapping, and the identifier grammar its
// names obey.

/// A character that may open an identifier segment.
pub open spec fn is_ident_start(c: char) -> bool {
    is_upper_char(c) || is_lower_char(c) || c == '_'
}

/// A character that may continue an identifier segment.
pub open spec fn is_ident_char(c: char) -> bool {
    is_alnum_char(c) || c == '_' || c == '-'
}

/// One bare identifier segment: a letter or underscore, then letters,
/// digits, underscores and hyphens.
pub open spec fn valid_ident(s: Seq<char>) -> bool {
    s.len() > 0 && is_ident_start(s[0]) && forall|i: int|
        1 <= i < s.len() ==> is_ident_char(#[trigger] s[i])
}

/// A secret name: a bare identifier, optionally preceded by one `bucket/`
/// prefix whose bucket is itself a bare identifier.
pub open spec fn valid_name(s: Seq<char>) -> bool {
    match split_once_spec(s, '/') {
        None => valid_ident(s),
        Some(parts) => valid_ident(parts.0) && valid_ident(parts.1),
    }
}

/// The bare secret name with any bucket prefix stripped; what an
/// environment variable is named after.
pub open spec fn name_only_spec(s: Seq<char>) -> Seq<char> {
    match split_once_spec(s, '/') {
        None => s,
        Some(parts) => parts.1,
    }
}

/// Whether `v` is a valid identifier segment, executably.
fn valid_ident_exec(v: &Vec<char>) -> (r: bool)
    ensures
        r == valid_ident(v@),
{
    if v.len() == 0 {
        return false;
    }
    let c0 = v[0];
    if !(('A' <= c0 && c0 <= 'Z') || ('a' <= c0 && c0 <= 'z') || c0 == '_') {
        return false;
    }
    let mut i: usize = 1;
    while i < v.len()
        invariant
            1 <= i <= v@.len(),
            forall|k: int| 1 <= k < i ==> is_ident_char(#[trigger] v@[k]),
        decreases v@.len() - i,
    {
        let c = v[i];
        if !(('A' <= c && c <= 'Z') || ('a' <= c && c <= 'z') || ('0' <= c && c <= '9') || c == '_'
            || c == '-') {
            return false;
        }
        i = i + 1;
    }
    true
}

/// Enforce the identifier grammar on a secret name: one bare identifier,
/// optionally preceded by a single `bucket/` prefix.  Exactly the invalid
/// names are rejected, always with an `InvalidSecretName` error.
pub fn validate_name(name: &str) -> (r: Result<(), Error>)
    ensures
        r is Ok <==> valid_name(name@),
        r matches Err(e) ==> e is InvalidSecretName,
{
    let chars = str_to_chars(name);
    let ok = match split_once_char(&chars, '/') {
        None => valid_ident_exec(&chars),
        Some(parts) => valid_ident_exec(&parts.0) && valid_ident_exec(&parts.1),
    };
    if ok {
        Ok(())
    } else {
        Err(
            Error::InvalidSecretName(
                String::from_str(
                    "expected a name of letters, digits, underscores and hyphens, starting with a letter or underscore, with at most one bucket/ prefix",
                ),
            ),
        )
    }
}

/// Strip any bucket prefix from a secret name.
pub fn secret_name_only(name: &str) -> (r: String)
    ensures
        r@ == name_only_spec(name@),
{
    let chars = str_to_chars(name);
    match split_once_char(&chars, '/') {
        None => chars_to_string(&chars),
        Some(parts) => chars_to_string(&parts.1),
    }
}

/// `name` belongs to the requested bucket: with no filter every name does,
/// with a filter exactly the names carrying that bucket prefix.
pub open spec fn bucket_matches(name: Seq<char>, bucket: Option<Seq<char>>) -> bool {
    match bucket {
        None => true,
        Some(b) => match split_once_spec(name, '/') {
            Some(parts) => parts.0 == b,
            None => false,
        },
    }
}

/// A stored secret's listing entry: its name and timestamps, never its
/// value.
pub struct Secret {
    pub name: String,
    pub created_at: String,
    pub updated_at: String,
}

/// `rows` is a listing of exactly the secrets of `m` in `bucket`: complete,
/// strictly sorted by name, with each entry's timestamps from `m`.
pub open spec fn is_listing(
    m: Map<Seq<char>, (Seq<u8>, Seq<char>, Seq<char>)>,
    bucket: Option<Seq<char>>,
    rows: Seq<Secret>,
) -> bool {
    &&& forall|i: int|
        0 <= i < rows.len() ==> m.contains_key(#[trigger] rows[i].name@) && bucket_matches(
            rows[i].name@,
            bucket,
        ) && rows[i].created_at@ == m[rows[i].name@].1 && rows[i].updated_at@ == m[rows[i].name@].2
    &&& forall|n: Seq<char>|
        m.contains_key(n) && bucket_matches(n, bucket) ==> exists|i: int|
            0 <= i < rows.len() && #[trigger] rows[i].name@ == n
    &&& forall|i: int, j: int| 0 <= i < j < rows.len() ==> lex_lt(rows[i].name@, rows[j].name@)
}

/// The current schema version mark.
pub const SCHEMA_VERSION: u64 = 1;

/// An open vault: a connection to the persistent store and the resolved
/// master key, held for the handle's lifetime.
pub struct Vault {
    conn: rusqlite::Connection,
    master_key: String,
}

impl Vault {
    /// The stored secrets: each name mapped to its encrypted value and its
    /// timestamps.
    pub closed spec fn secrets(&self) -> Map<Seq<char>, (Seq<u8>, Seq<char>, Seq<char>)> {
        secrets_table(self.conn)
    }

    /// The master key protecting the stored values.
    pub closed spec fn key(&self) -> Seq<char> {
        self.master_key@
    }

    /// The metadata records of the open store.
    pub closed spec fn meta(&self) -> Map<Seq<char>, Seq<char>> {
        meta_table(self.conn)
    }

    /// Open the vault stored at `path`, creating the database, its schema
    /// and its schema-version record when absent, under the already
    /// resolved master key.
    pub fn open(path: &str, master_key: String) -> (r: Result<Vault, Error>)
        ensures
            match r {
                Ok(v) => v.key() == master_key@ && v.meta().contains_key("schema_version"@),
                Err(e) => e is Storage,
            },
    {
        let mut conn = match store::conn_open(path) {
            Ok(c) => c,
            Err(m) => {
                return Err(Error::Storage(m));
            },
        };
        match store::conn_setup(&mut conn) {
            Ok(u) => u,
            Err(m) => {
                return Err(Error::Storage(m));
            },
        };
        match init_schema_version(&mut conn) {
            Ok(u) => u,
            Err(e) => {
                return Err(e);
            },
        };
        Ok(Vault { conn, master_key })
    }

    /// Store a new secret.  Exactly the grammar-breaking names are rejected
    /// as invalid; a name already present is refused with `AlreadyExists`;
    /// on success the store gains one record whose ciphertext opens to
    /// `value` under this vault's key and under no other.
    pub fn create(&mut self, name: &str, value: &str) -> (r: Result<(), Error>)
        ensures
            final(self).key() == old(self).key(),
            (r matches Err(e) && e is InvalidSecretName) <==> !valid_name(name@),
            r matches Err(_) ==> final(self).secrets() == old(self).secrets(),
            r is Ok ==> valid_name(name@) && !old(self).secrets().contains_key(name@) && final(self).secrets() == old(self).secrets().insert(name@, final(self).secrets()[name@]) && final(self).secrets().contains_key(name@) && crypto::is_ciphertext_of(
                final(self).secrets()[name@].0,
                encode_utf8(value@),
                old(self).key(),
            ),
            valid_name(name@) && old(self).secrets().contains_key(name@) ==> (r matches Err(e) && (
            e is SecretAlreadyExists || e is Storage)),
            (r matches Err(e) && e is SecretAlreadyExists) ==> old(self).secrets().contains_key(
                name@,
            ),
            r matches Err(e) ==> (e is InvalidSecretName || e is SecretAlreadyExists
                || e is Encryption || e is Storage),
            r is Ok ==> final(self).secrets()[name@].1 == final(self).secrets()[name@].2,
            r matches Err(e) ==> (e matches Error::SecretAlreadyExists(n) ==> n@ == name@),
    {
        self.create_internal(name, value, false)
    }

    /// Store a secret, overwriting an existing record of the same name; the
    /// creation timestamp of an overwritten record is kept.
    pub fn create_or_update(&mut self, name: &str, value: &str) -> (r: Result<(), Error>)
        ensures
            final(self).key() == old(self).key(),
            (r matches Err(e) && e is InvalidSecretName) <==> !valid_name(name@),
            r matches Err(_) ==> final(self).secrets() == old(self).secrets(),
            r is Ok ==> valid_name(name@) && final(self).secrets() == old(self).secrets().insert(
                name@,
                final(self).secrets()[name@],
            ) && final(self).secrets().contains_key(name@) && crypto::is_ciphertext_of(
                final(self).secrets()[name@].0,
                encode_utf8(value@),
                old(self).key(),
            ) && (old(self).secrets().contains_key(name@) ==> final(self).secrets()[name@].1 == old(self).secrets()[name@].1),
            !(r matches Err(e) && e is SecretAlreadyExists),
            r matches Err(e) ==> (e is InvalidSecretName || e is Encryption || e is Storage),
            r is Ok && !old(self).secrets().contains_key(name@) ==> final(self).secrets()[name@].1 == final(self).secrets()[name@].2,
    {
        self.create_internal(name, value, true)
    }

    /// Shared path of [`Vault::create`] and [`Vault::create_or_update`].
    fn create_internal(&mut self, name: &str, value: &str, force: bool) -> (r: Result<(), Error>)
        ensures
            final(self).key() == old(self).key(),
            (r matches Err(e) && e is InvalidSecretName) <==> !valid_name(name@),
            r matches Err(_) ==> final(self).secrets() == old(self).secrets(),
            r is Ok ==> valid_name(name@) && final(self).secrets() == old(self).secrets().insert(
                name@,
                final(self).secrets()[name@],
            ) && final(self).secrets().contains_key(name@) && crypto::is_ciphertext_of(
                final(self).secrets()[name@].0,
                encode_utf8(value@),
                old(self).key(),
            ) && (old(self).secrets().contains_key(name@) ==> force && final(self).secrets()[name@].1 == old(self).secrets()[name@].1),
            !force && valid_name(name@) && old(self).secrets().contains_key(name@) ==> (r matches
                Err(e) && (e is SecretAlreadyExists || e is Storage)),
            (r matches Err(e) && e is SecretAlreadyExists) ==> !force && old(self).secrets().contains_key(name@),
            r matches Err(e) ==> (e is InvalidSecretName || e is SecretAlreadyExists
                || e is SecretNotFound || e is Encryption || e is Storage),
            force ==> !(r matches Err(e) && e is SecretAlreadyExists),
            force ==> !(r matches Err(e) && e is SecretNotFound),
            !force ==> !(r matches Err(e) && e is SecretNotFound),
            r is Ok && !old(self).secrets().contains_key(name@) ==> final(self).secrets()[name@].1 == final(self).secrets()[name@].2,
            r matches Err(e) ==> (e matches Error::SecretAlreadyExists(n) ==> n@ == name@),
    {
        match validate_name(name) {
            Ok(u) => u,
            Err(e) => {
                return Err(e);
            },
        };
        let present = match store::row_get(&self.conn, name) {
            Ok(o) => o.is_some(),
            Err(m) => {
                return Err(Error::Storage(m));
            },
        };
        if present {
            if force {
                return self.update(name, value);
            }
            return Err(Error::SecretAlreadyExists(String::from_str(name)));
        }
        let encrypted = match crypto::encrypt(value.as_bytes(), self.master_key.as_str()) {
            Ok(c) => c,
            Err(e) => {
                return Err(e);
            },
        };
        let now = store::now_rfc3339();
        match store::row_insert(&mut self.conn, name, &encrypted, now.as_str()) {
            Ok(u) => Ok(u),
            Err(m) => Err(Error::Storage(m)),
        }
    }

    /// Decrypt and return a stored secret's value.  A missing name gives
    /// `SecretNotFound`, and exactly then; a value that does not open under
    /// this vault's key gives `Decryption`.
    pub fn get(&self, name: &str) -> (r: Result<String, Error>)
        ensures
            match r {
                Ok(v) => self.secrets().contains_key(name@) && crypto::decryption_of(
                    self.secrets()[name@].0,
                    self.key(),
                ) == Some(encode_utf8(v@)),
                Err(e) => (e is SecretNotFound ==> !self.secrets().contains_key(name@)) && (
                !self.secrets().contains_key(name@) ==> e is SecretNotFound || e is Storage) && (
                e is Decryption ==> self.secrets().contains_key(name@) && !(exists|s: Seq<char>|
                crypto::decryption_of(self.secrets()[name@].0, self.key()) == Some(
                    #[trigger] encode_utf8(s),
                ))) && (e is SecretNotFound || e is Decryption || e is Storage) && (e matches
                Error::SecretNotFound(n) ==> n@ == name@),
            },
    {
        let cipher = match store::row_get(&self.conn, name) {
            Ok(Some(c)) => c,
            Ok(None) => {
                return Err(Error::SecretNotFound(String::from_str(name)));
            },
            Err(m) => {
                return Err(Error::Storage(m));
            },
        };
        let plain = match crypto::decrypt(cipher.as_slice(), self.master_key.as_str()) {
            Ok(p) => p,
            Err(e) => {
                return Err(e);
            },
        };
        let ghost plain_view = plain@;
        match crate::text::bytes_to_string(plain) {
            Some(s) => {
                proof {
                    broadcast use vstd::utf8::decode_utf8_encode_utf8;

                    assert(encode_utf8(s@) == plain_view);
                }
                Ok(s)
            },
            None => {
                proof {
                    broadcast use vstd::utf8::encode_utf8_valid_utf8;

                }
                Err(Error::Decryption(String::from_str("stored value is not valid UTF-8 text")))
            },
        }
    }

    /// Re-encrypt an existing secret in place, keeping its creation
    /// timestamp.  Exactly the grammar-breaking names are invalid; a
    /// missing name gives `SecretNotFound`, and exactly then.
    pub fn update(&mut self, name: &str, value: &str) -> (r: Result<(), Error>)
        ensures
            final(self).key() == old(self).key(),
            (r matches Err(e) && e is InvalidSecretName) <==> !valid_name(name@),
            r matches Err(_) ==> final(self).secrets() == old(self).secrets(),
            r is Ok ==> old(self).secrets().contains_key(name@) && final(self).secrets() == old(self).secrets().insert(name@, final(self).secrets()[name@]) && crypto::is_ciphertext_of(
                final(self).secrets()[name@].0,
                encode_utf8(value@),
                old(self).key(),
            ) && final(self).secrets()[name@].1 == old(self).secrets()[name@].1,
            valid_name(name@) && !old(self).secrets().contains_key(name@) ==> (r matches Err(e) && (
            e is SecretNotFound || e is Storage)),
            (r matches Err(e) && e is SecretNotFound) ==> !old(self).secrets().contains_key(name@),
            r matches Err(e) ==> (e is InvalidSecretName || e is SecretNotFound || e is Encryption
                || e is Storage),
            r matches Err(e) ==> (e matches Error::SecretNotFound(n) ==> n@ == name@),
    {
        match validate_name(name) {
            Ok(u) => u,
            Err(e) => {
                return Err(e);
            },
        };
        let present = match store::row_get(&self.conn, name) {
            Ok(o) => o.is_some(),
            Err(m) => {
                return Err(Error::Storage(m));
            },
        };
        if !present {
            return Err(Error::SecretNotFound(String::from_str(name)));
        }
        let encrypted = match crypto::encrypt(value.as_bytes(), self.master_key.as_str()) {
            Ok(c) => c,
            Err(e) => {
                return Err(e);
            },
        };
        let now = store::now_rfc3339();
        match store::row_update(&mut self.conn, name, &encrypted, now.as_str()) {
            Ok(u) => Ok(u),
            Err(m) => Err(Error::Storage(m)),
        }
    }

    /// Remove a stored secret.  Exactly the grammar-breaking names are
    /// invalid; a missing name gives `SecretNotFound`, and exactly then.
    pub fn delete(&mut self, name: &str) -> (r: Result<(), Error>)
        ensures
            final(self).key() == old(self).key(),
            (r matches Err(e) && e is InvalidSecretName) <==> !valid_name(name@),
            r matches Err(_) ==> final(self).secrets() == old(self).secrets(),
            r is Ok ==> old(self).secrets().contains_key(name@) && final(self).secrets() == old(self).secrets().remove(name@),
            valid_name(name@) && !old(self).secrets().contains_key(name@) ==> (r matches Err(e) && (
            e is SecretNotFound || e is Storage)),
            (r matches Err(e) && e is SecretNotFound) ==> !old(self).secrets().contains_key(name@),
            r matches Err(e) ==> (e matches Error::SecretNotFound(n) ==> n@ == name@),
    {
        match validate_name(name) {
            Ok(u) => u,
            Err(e) => {
                return Err(e);
            },
        };
        match store::row_delete(&mut self.conn, name) {
            Ok(n) => {
                if n == 0 {
                    proof {
                        assert(old(self).secrets().remove(name@) =~= old(self).secrets());
                    }
                    Err(Error::SecretNotFound(String::from_str(name)))
                } else {
                    Ok(())
                }
            },
            Err(m) => Err(Error::Storage(m)),
        }
    }

    /// Whether a secret of this name is stored.  (A name like `exists`
    /// would collide with a quantifier keyword here.)
    pub fn has_secret(&self, name: &str) -> (r: Result<bool, Error>)
        ensures
            match r {
                Ok(b) => b == self.secrets().contains_key(name@),
                Err(e) => e is Storage,
            },
    {
        match store::row_get(&self.conn, name) {
            Ok(o) => Ok(o.is_some()),
            Err(m) => Err(Error::Storage(m)),
        }
    }

    /// List every stored secret: names and timestamps only, never values,
    /// strictly sorted by name.
    pub fn list(&self) -> (r: Result<Vec<Secret>, Error>)
        ensures
            match r {
                Ok(rows) => is_listing(self.secrets(), None, rows@),
                Err(e) => e is Storage,
            },
    {
        self.list_by_bucket(None)
    }

    /// List the stored secrets of one bucket (or all of them): names and
    /// timestamps only, never values, strictly sorted by name, complete for
    /// the requested bucket.
    pub fn list_by_bucket(&self, bucket: Option<&str>) -> (r: Result<Vec<Secret>, Error>)
        ensures
            match r {
                Ok(rows) => is_listing(
                    self.secrets(),
                    match bucket {
                        Some(b) => Some(b@),
                        None => None,
                    },
                    rows@,
                ),
                Err(e) => e is Storage,
            },
    {
        let ghost bview: Option<Seq<char>> = match bucket {
            Some(b) => Some(b@),
            None => None,
        };
        let rows = match store::rows_list(&self.conn) {
            Ok(v) => v,
            Err(m) => {
                return Err(Error::Storage(m));
            },
        };
        let bucket_chars: Option<Vec<char>> = match bucket {
            Some(b) => Some(str_to_chars(b)),
            None => None,
        };
        let mut out: Vec<Secret> = Vec::new();
        let mut i: usize = 0;
        while i < rows.len()
            invariant
                i <= rows@.len(),
                match bucket_chars {
                    Some(bc) => bview == Some(bc@),
                    None => bview is None,
                },
                forall|k: int|
                    0 <= k < rows@.len() ==> self.secrets().contains_key(#[trigger] rows@[k].0@)
                        && self.secrets()[rows@[k].0@].1 == rows@[k].1@ && self.secrets()[rows@[k].0@].2
                        == rows@[k].2@,
                forall|k1: int, k2: int|
                    0 <= k1 < k2 < rows@.len() ==> lex_lt(rows@[k1].0@, rows@[k2].0@),
                forall|k: int|
                    0 <= k < out@.len() ==> self.secrets().contains_key(#[trigger] out@[k].name@)
                        && bucket_matches(out@[k].name@, bview) && out@[k].created_at@
                        == self.secrets()[out@[k].name@].1 && out@[k].updated_at@
                        == self.secrets()[out@[k].name@].2,
                forall|j: int|
                    0 <= j < i && bucket_matches(#[trigger] rows@[j].0@, bview) ==> exists|k: int|
                        0 <= k < out@.len() && #[trigger] out@[k].name@ == rows@[j].0@,
                forall|k1: int, k2: int|
                    0 <= k1 < k2 < out@.len() ==> lex_lt(out@[k1].name@, out@[k2].name@),
                forall|k: int, j: int|
                    0 <= k < out@.len() && i <= j < rows@.len() ==> lex_lt(
                        #[trigger] out@[k].name@,
                        #[trigger] rows@[j].0@,
                    ),
            decreases rows@.len() - i,
        {
            let name_chars = str_to_chars(rows[i].0.as_str());
            let keep: bool = match &bucket_chars {
                None => true,
                Some(bc) => {
                    match split_once_char(&name_chars, '/') {
                        Some(parts) => chars_eq(&parts.0, bc),
                        None => false,
                    }
                },
            };
            proof {
                assert(keep == bucket_matches(rows@[i as int].0@, bview));
            }
            let ghost prev_out = out@;
            if keep {
                let entry = Secret {
                    name: chars_to_string(&name_chars),
                    created_at: String::from_str(rows[i].1.as_str()),
                    updated_at: String::from_str(rows[i].2.as_str()),
                };
                out.push(entry);
                proof {
                    assert(out@[out@.len() - 1].name@ == rows@[i as int].0@);
                }
            }
            proof {
                assert forall|j: int|
                    0 <= j < i + 1 && bucket_matches(#[trigger] rows@[j].0@, bview) implies exists|
                    k: int,
                |
                    0 <= k < out@.len() && #[trigger] out@[k].name@ == rows@[j].0@ by {
                    if j < i {
                        let k = choose|k: int|
                            0 <= k < prev_out.len() && #[trigger] prev_out[k].name@
                                == rows@[j].0@;
                        assert(out@[k].name@ == rows@[j].0@);
                    } else {
                        assert(out@[out@.len() - 1].name@ == rows@[j].0@);
                    }
                }
            }
            i = i + 1;
        }
        Ok(out)
    }
}

/// Listing is stable: two listings of one stored map under one bucket
/// filter are identical entry for entry, so repeated calls of
/// [`Vault::list`] with no intervening writes always present the same
/// alphabetical view.  A listing holds names and timestamps only, never a
/// decrypted value, by the shape of [`Secret`].
pub proof fn lemma_listing_unique(
    m: Map<Seq<char>, (Seq<u8>, Seq<char>, Seq<char>)>,
    bucket: Option<Seq<char>>,
    r1: Seq<Secret>,
    r2: Seq<Secret>,
)
    requires
        is_listing(m, bucket, r1),
        is_listing(m, bucket, r2),
    ensures
        r1.len() == r2.len(),
        forall|i: int|
            0 <= i < r1.len() ==> (#[trigger] r1[i]).name@ == r2[i].name@ && r1[i].created_at@
                == r2[i].created_at@ && r1[i].updated_at@ == r2[i].updated_at@,
{
    let n1 = Seq::new(r1.len(), |i: int| r1[i].name@);
    let n2 = Seq::new(r2.len(), |i: int| r2[i].name@);
    assert forall|x: Seq<char>| n1.contains(x) implies m.contains_key(x) && bucket_matches(
        x,
        bucket,
    ) by {
        let i = choose|i: int| 0 <= i < n1.len() && n1[i] == x;
        assert(r1[i].name@ == x);
    }
    assert forall|x: Seq<char>| m.contains_key(x) && bucket_matches(x, bucket) implies n1.contains(
        x,
    ) by {
        let i = choose|i: int| 0 <= i < r1.len() && r1[i].name@ == x;
        assert(n1[i] == x);
    }
    assert forall|x: Seq<char>| n2.contains(x) implies m.contains_key(x) && bucket_matches(
        x,
        bucket,
    ) by {
        let i = choose|i: int| 0 <= i < n2.len() && n2[i] == x;
        assert(r2[i].name@ == x);
    }
    assert forall|x: Seq<char>| m.contains_key(x) && bucket_matches(x, bucket) implies n2.contains(
        x,
    ) by {
        let i = choose|i: int| 0 <= i < r2.len() && r2[i].name@ == x;
        assert(n2[i] == x);
    }
    assert(forall|x: Seq<char>| n1.contains(x) <==> n2.contains(x));
    crate::text::lemma_sorted_names_unique(n1, n2);
    assert forall|i: int|
        0 <= i < r1.len() implies (#[trigger] r1[i]).name@ == r2[i].name@ && r1[i].created_at@
        == r2[i].created_at@ && r1[i].updated_at@ == r2[i].updated_at@ by {
        assert(n1[i] == n2[i]);
    }
}

/// Check, and when absent or outdated set, the schema-version record of the
/// metadata table.  The secrets table is untouched.
fn init_schema_version(conn: &mut rusqlite::Connection) -> (r: Result<(), Error>)
    ensures
        secrets_table(*final(conn)) == secrets_table(*old(conn)),
        r is Ok ==> meta_table(*final(conn)).contains_key("schema_version"@),
        r is Ok && !meta_table(*old(conn)).contains_key("schema_version"@) ==> meta_table(
            *final(conn),
        )["schema_version"@] == "1"@,
        r matches Err(e) ==> e is Storage,
{
    let current = match store::meta_get(conn, "schema_version") {
        Ok(o) => o,
        Err(m) => {
            return Err(Error::Storage(m));
        },
    };
    let up_to_date: bool = match &current {
        Some(text) => {
            let chars = str_to_chars(text.as_str());
            match crate::text::parse_decimal(&chars) {
                Some(n) => n >= SCHEMA_VERSION,
                None => false,
            }
        },
        None => false,
    };
    if up_to_date {
        return Ok(());
    }
    match store::meta_set(conn, "schema_version", "1") {
        Ok(u) => Ok(u),
        Err(m) => Err(Error::Storage(m)),
    }
}

} // verus!
