//! Authentication rules: the advertised methods, static user lists, and
//! authorized-key lines.

use vstd::prelude::*;

use crate::text::{
    first_index_of, first_of, run_end, same_text, space_run_end, space_run_start, space_start,
    word_end,
};

verus! {

/// The authentication methods a server advertises.
#[derive(Debug, Clone, Copy, PartialEq, Eq, Structural)]
pub struct AuthMethods {
    pub password: bool,
    pub publickey: bool,
}

/// The methods to advertise: those configured, or password alone (which
/// then rejects everyone) when none is.
pub fn advertised_methods(password_configured: bool, pubkey_configured: bool) -> (r: AuthMethods)
    ensures
        r == (if !password_configured && !pubkey_configured {
            AuthMethods { password: true, publickey: false }
        } else {
            AuthMethods { password: password_configured, publickey: pubkey_configured }
        }),
{
    if !password_configured && !pubkey_configured {
        AuthMethods { password: true, publickey: false }
    } else {
        AuthMethods { password: password_configured, publickey: pubkey_configured }
    }
}

/// Whether `users` holds the pair `user`, `pass`.
pub fn credentials_match(users: &Vec<(String, String)>, user: &str, pass: &str) -> (r: bool)
    ensures
        r == exists|i: int| 0 <= i < users.len() && users@[i].0@ == user@ && users@[i].1@ == pass@,
{
    let mut i: usize = 0;
    while i < users.len()
        invariant
            i <= users.len(),
            forall|j: int| 0 <= j < i ==> !(users@[j].0@ == user@ && users@[j].1@ == pass@),
        decreases users.len() - i,
    {
        if same_text(users[i].0.as_str(), user) && same_text(users[i].1.as_str(), pass) {
            return true;
        }
        i = i + 1;
    }
    false
}

/// A `user:password` credential split at its first `:`; none without one.
pub open spec fn credential_of(s: Seq<char>) -> Option<(Seq<char>, Seq<char>)> {
    let c = first_of(s, ':');
    if c < s.len() {
        Some((s.take(c as int), s.skip(c as int + 1)))
    } else {
        None
    }
}

/// The credentials that `users` give, in order, skipping entries without `:`.
pub open spec fn credentials_of(users: Seq<Seq<char>>) -> Seq<(Seq<char>, Seq<char>)>
    decreases users.len(),
{
    if users.len() == 0 {
        Seq::empty()
    } else {
        let prev = credentials_of(users.drop_last());
        match credential_of(users.last()) {
            Some(c) => prev.push(c),
            None => prev,
        }
    }
}

/// Splits a `user:password` credential at its first `:`.
pub fn split_credential(s: &str) -> (r: Option<(String, String)>)
    ensures
        match r {
            Some(c) => credential_of(s@) == Some((c.0@, c.1@)),
            None => credential_of(s@) is None,
        },
{
    let n = s.unicode_len();
    let c = first_index_of(s, ':');
    if c < n {
        let user = s.substring_char(0, c).to_owned();
        let pass = s.substring_char(c + 1, n).to_owned();
        assert(user@ =~= s@.take(c as int));
        assert(pass@ =~= s@.skip(c + 1));
        Some((user, pass))
    } else {
        None
    }
}

/// Parses `user:password` credentials, skipping entries without `:`.
pub fn parse_users(users: &Vec<String>) -> (r: Vec<(String, String)>)
    ensures
        r@.map_values(|c: (String, String)| (c.0@, c.1@)) == credentials_of(
            users@.map_values(|u: String| u@),
        ),
{
    let ghost us = users@.map_values(|u: String| u@);
    let mut out: Vec<(String, String)> = Vec::new();
    let mut i: usize = 0;
    while i < users.len()
        invariant
            i <= users.len(),
            us == users@.map_values(|u: String| u@),
            out@.map_values(|c: (String, String)| (c.0@, c.1@)) == credentials_of(us.take(i as int)),
        decreases users.len() - i,
    {
        assert(us.take(i + 1).drop_last() =~= us.take(i as int));
        assert(us.take(i + 1).last() == users@[i as int]@);
        let ghost before = out@;
        match split_credential(users[i].as_str()) {
            Some(c) => {
                out.push(c);
                assert(out@.map_values(|c: (String, String)| (c.0@, c.1@)) =~= before.map_values(
                    |c: (String, String)| (c.0@, c.1@),
                ).push((c.0@, c.1@)));
            },
            None => {},
        }
        i = i + 1;
    }
    assert(us.take(users.len() as int) =~= us);
    out
}

/// The key field of an authorized-keys line: the second word of the line
/// with white space trimmed; none for a blank line, a `#` comment, or a
/// line of one word.
pub open spec fn key_field(s: Seq<char>) -> Option<Seq<char>> {
    let a = space_run_end(s, 0);
    let z = space_run_start(s, s.len() as int);
    if a >= z || s[a] == '#' {
        None
    } else {
        let e = word_end(s, a);
        if e >= z {
            None
        } else {
            let b = space_run_end(s, e);
            Some(s.subrange(b, word_end(s, b)))
        }
    }
}

/// The key field of an authorized-keys line.
pub fn authorized_key_field(line: &str) -> (r: Option<String>)
    ensures
        match r {
            Some(f) => key_field(line@) == Some(f@),
            None => key_field(line@) is None,
        },
{
    let n = line.unicode_len();
    let a = run_end(line, 0, true);
    let z = space_start(line, n);
    if a >= z || line.get_char(a) == '#' {
        return None;
    }
    let e = run_end(line, a, false);
    if e >= z {
        return None;
    }
    let b = run_end(line, e, true);
    let f = run_end(line, b, false);
    Some(line.substring_char(b, f).to_owned())
}

/// The lines of `text`, split at each `\n`.
pub open spec fn lines_of(text: Seq<char>) -> Seq<Seq<char>>
    decreases text.len(),
{
    let c = first_of(text, '\n');
    if c < text.len() {
        seq![text.take(c as int)] + lines_of(text.skip(c as int + 1))
    } else {
        seq![text]
    }
}

/// An SSH public key, carried through opaquely.
#[verifier::external_type_specification]
#[verifier::external_body]
pub struct ExPublicKey(russh::keys::PublicKey);

/// Whether a base64 public-key blob decodes to a key; this depends on the
/// blob alone.
pub uninterp spec fn key_decodes(field: Seq<char>) -> bool;

/// Relies on `russh::keys::parse_public_key_base64`: the key that a base64
/// public-key blob encodes, when it decodes.
#[verifier::external_body]
fn decode_public_key(field: &str) -> (r: Option<russh::keys::PublicKey>)
    ensures
        (r is Some) == key_decodes(field@),
{
    russh::keys::parse_public_key_base64(field).ok()
}

/// The public key of an authorized-keys line, when the line has a key
/// field that decodes.
pub fn parse_pubkey(line: &str) -> (r: Option<russh::keys::PublicKey>)
    ensures
        (r is Some) == match key_field(line@) {
            Some(f) => key_decodes(f),
            None => false,
        },
{
    match authorized_key_field(line) {
        Some(f) => decode_public_key(f.as_str()),
        None => None,
    }
}

/// The key fields of the authorized-keys lines of `text`, in order.
pub open spec fn key_fields_of(lines: Seq<Seq<char>>) -> Seq<Seq<char>>
    decreases lines.len(),
{
    if lines.len() == 0 {
        Seq::empty()
    } else {
        let prev = key_fields_of(lines.drop_last());
        match key_field(lines.last()) {
            Some(f) => prev.push(f),
            None => prev,
        }
    }
}

/// How many of `fields` decode to a key.
pub open spec fn decoding_count(fields: Seq<Seq<char>>) -> nat
    decreases fields.len(),
{
    if fields.len() == 0 {
        0
    } else {
        decoding_count(fields.drop_last()) + if key_decodes(fields.last()) {
            1nat
        } else {
            0nat
        }
    }
}

/// The public keys that the lines of `text` hold, in order, skipping lines
/// without a key field and fields that do not decode.
pub fn load_keys_from_text(text: &str) -> (r: Vec<russh::keys::PublicKey>)
    ensures
        r.len() == decoding_count(key_fields_of(lines_of(text@))),
{
    let fields = authorized_key_fields(text);
    let ghost fs = fields@.map_values(|f: String| f@);
    let mut keys: Vec<russh::keys::PublicKey> = Vec::new();
    let mut i: usize = 0;
    while i < fields.len()
        invariant
            i <= fields.len(),
            fs == fields@.map_values(|f: String| f@),
            keys.len() == decoding_count(fs.take(i as int)),
        decreases fields.len() - i,
    {
        assert(fs.take(i + 1).drop_last() =~= fs.take(i as int));
        assert(fs.take(i + 1).last() == fields@[i as int]@);
        match decode_public_key(fields[i].as_str()) {
            Some(k) => keys.push(k),
            None => {},
        }
        i = i + 1;
    }
    assert(fs.take(fields.len() as int) =~= fs);
    keys
}

/// The key fields of the authorized-keys lines of `text`, in order.
pub fn authorized_key_fields(text: &str) -> (r: Vec<String>)
    ensures
        r@.map_values(|f: String| f@) == key_fields_of(lines_of(text@)),
{
    let mut out: Vec<String> = Vec::new();
    let n = text.unicode_len();
    let mut start: usize = 0;
    let ghost mut done: Seq<Seq<char>> = Seq::empty();
    assert(text@.skip(0) =~= text@);
    loop
        invariant
            n == text@.len(),
            start <= n,
            lines_of(text@) == done + lines_of(text@.skip(start as int)),
            out@.map_values(|f: String| f@) == key_fields_of(done),
        decreases n - start,
    {
        let rest = text.substring_char(start, n);
        assert(rest@ =~= text@.skip(start as int));
        let c = first_index_of(rest, '\n');
        let line = rest.substring_char(0, c);
        assert(line@ =~= rest@.take(c as int));
        let ghost before = out@;
        match authorized_key_field(line) {
            Some(f) => {
                out.push(f);
                assert(out@.map_values(|f: String| f@) =~= before.map_values(|f: String| f@).push(
                    f@,
                ));
            },
            None => {},
        }
        proof {
            assert((done + seq![line@]).drop_last() =~= done);
            done = done + seq![line@];
        }
        if c == rest.unicode_len() {
            assert(lines_of(rest@) == seq![rest@]);
            assert(rest@.take(c as int) =~= rest@);
            assert(lines_of(text@) =~= done);
            assert(key_fields_of(lines_of(text@)) == key_fields_of(done));
            return out;
        }
        assert(rest@.skip(c + 1) =~= text@.skip(start + c + 1));
        assert(lines_of(rest@) == seq![line@] + lines_of(rest@.skip(c + 1)));
        assert(lines_of(text@) =~= done + lines_of(text@.skip(start + c + 1)));
        start = start + c + 1;
    }
}

} // verus!
