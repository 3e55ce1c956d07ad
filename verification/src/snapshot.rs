//! The binary snapshot encoding of the credential collection, and the proof
//! that decoding inverts encoding.
//!
//! A snapshot is one leading format-version byte, a record count, and then
//! each record's username and hash. Counts and lengths are 64-bit
//! little-endian; a string is its character count followed by each character
//! as a 32-bit little-endian scalar value. The format has no outside
//! dependency: both directions are verified code.

use vstd::bytes::{spec_u32_to_le_bytes, spec_u64_to_le_bytes, spec_u32_from_le_bytes,
    spec_u64_from_le_bytes, u32_from_le_bytes, u32_to_le_bytes, u64_from_le_bytes, u64_to_le_bytes};
use vstd::prelude::*;
use vstd::slice::slice_subrange;
use vstd::std_specs::iter::IteratorSpec;
use vstd::utf8::is_scalar;
use crate::store::UserView;

verus! {

broadcast use vstd::string::axiom_spec_iter;

/// The snapshot format version this library writes and accepts.
pub const SNAPSHOT_VERSION: u8 = 1;

/// The encoding of a string's characters: each as a 32-bit little-endian
/// scalar value.
pub open spec fn encode_chars(s: Seq<char>) -> Seq<u8>
    decreases s.len(),
{
    if s.len() == 0 {
        Seq::empty()
    } else {
        spec_u32_to_le_bytes(s[0] as u32) + encode_chars(s.drop_first())
    }
}

/// The encoding of a string: its character count, then its characters.
pub open spec fn encode_str(s: Seq<char>) -> Seq<u8> {
    spec_u64_to_le_bytes(s.len() as u64) + encode_chars(s)
}

/// The encoding of the records: each one's name, then its hash.
pub open spec fn encode_records(rs: Seq<UserView>) -> Seq<u8>
    decreases rs.len(),
{
    if rs.len() == 0 {
        Seq::empty()
    } else {
        encode_str(rs[0].name) + encode_str(rs[0].hash) + encode_records(rs.drop_first())
    }
}

/// The encoding of a whole store: version byte, record count, records.
pub open spec fn encode_store(rs: Seq<UserView>) -> Seq<u8> {
    seq![SNAPSHOT_VERSION] + spec_u64_to_le_bytes(rs.len() as u64) + encode_records(rs)
}

/// Decodes `n` characters from the front of `bytes`; on success, the
/// characters and the remaining bytes.
pub open spec fn decode_chars(bytes: Seq<u8>, n: nat) -> Option<(Seq<char>, Seq<u8>)>
    decreases n,
{
    if n == 0 {
        Some((Seq::empty(), bytes))
    } else if bytes.len() < 4 {
        None
    } else {
        let v = spec_u32_from_le_bytes(bytes.take(4));
        if is_scalar(v) {
            match decode_chars(bytes.skip(4), (n - 1) as nat) {
                Some((cs, rest)) => Some((seq![v as char] + cs, rest)),
                None => None,
            }
        } else {
            None
        }
    }
}

/// Decodes one length-prefixed string from the front of `bytes`.
pub open spec fn decode_str(bytes: Seq<u8>) -> Option<(Seq<char>, Seq<u8>)> {
    if bytes.len() < 8 {
        None
    } else {
        let n = spec_u64_from_le_bytes(bytes.take(8));
        decode_chars(bytes.skip(8), n as nat)
    }
}

/// Decodes `k` records from the front of `bytes`.
pub open spec fn decode_records(bytes: Seq<u8>, k: nat) -> Option<(Seq<UserView>, Seq<u8>)>
    decreases k,
{
    if k == 0 {
        Some((Seq::empty(), bytes))
    } else {
        match decode_str(bytes) {
            Some((name, rest1)) => match decode_str(rest1) {
                Some((hash, rest2)) => match decode_records(rest2, (k - 1) as nat) {
                    Some((rs, rest3)) => Some((seq![UserView { name, hash }] + rs, rest3)),
                    None => None,
                },
                None => None,
            },
            None => None,
        }
    }
}

/// Decodes a whole snapshot: the version byte must match, the declared
/// record count must be exactly met, and no bytes may trail.
pub open spec fn decode_store(bytes: Seq<u8>) -> Option<Seq<UserView>> {
    if bytes.len() < 9 {
        None
    } else if bytes[0] != SNAPSHOT_VERSION {
        None
    } else {
        let k = spec_u64_from_le_bytes(bytes.subrange(1, 9));
        match decode_records(bytes.skip(9), k as nat) {
            Some((rs, rest)) => if rest.len() == 0 {
                Some(rs)
            } else {
                None
            },
            None => None,
        }
    }
}

/// Whether every string in the records is short enough for its length to be
/// written as a 64-bit count. Strings held in memory always are.
pub open spec fn records_bounded(rs: Seq<UserView>) -> bool {
    forall|i: int|
        0 <= i < rs.len() ==> (#[trigger] rs[i]).name.len() <= u64::MAX && rs[i].hash.len()
            <= u64::MAX
}

/// A string's character encoding takes four bytes per character.
pub proof fn lemma_encode_chars_len(s: Seq<char>)
    ensures
        encode_chars(s).len() == 4 * s.len(),
    decreases s.len(),
{
    vstd::bytes::lemma_auto_spec_u32_to_from_le_bytes();
    if s.len() > 0 {
        lemma_encode_chars_len(s.drop_first());
    }
}

/// Appending one character appends its four bytes.
pub proof fn lemma_encode_chars_push(s: Seq<char>, c: char)
    ensures
        encode_chars(s.push(c)) == encode_chars(s) + spec_u32_to_le_bytes(c as u32),
    decreases s.len(),
{
    if s.len() == 0 {
        assert(s.push(c)[0] == c);
        assert(s.push(c).drop_first() =~= Seq::<char>::empty());
        assert(encode_chars(Seq::<char>::empty()) =~= Seq::<u8>::empty());
        assert(spec_u32_to_le_bytes(c as u32) + Seq::<u8>::empty() =~= spec_u32_to_le_bytes(
            c as u32,
        ));
        assert(Seq::<u8>::empty() + spec_u32_to_le_bytes(c as u32) =~= spec_u32_to_le_bytes(
            c as u32,
        ));
    } else {
        assert(s.push(c)[0] == s[0]);
        assert(s.push(c).drop_first() =~= s.drop_first().push(c));
        lemma_encode_chars_push(s.drop_first(), c);
        assert(spec_u32_to_le_bytes(s[0] as u32) + (encode_chars(s.drop_first())
            + spec_u32_to_le_bytes(c as u32)) =~= (spec_u32_to_le_bytes(s[0] as u32)
            + encode_chars(s.drop_first())) + spec_u32_to_le_bytes(c as u32));
    }
}

/// Appending one record appends its name's and its hash's encodings.
pub proof fn lemma_encode_records_push(rs: Seq<UserView>, u: UserView)
    ensures
        encode_records(rs.push(u)) == encode_records(rs) + encode_str(u.name) + encode_str(u.hash),
    decreases rs.len(),
{
    if rs.len() == 0 {
        assert(rs.push(u)[0] == u);
        assert(rs.push(u).drop_first() =~= Seq::<UserView>::empty());
        assert(encode_records(Seq::<UserView>::empty()) =~= Seq::<u8>::empty());
        assert(encode_str(u.name) + encode_str(u.hash) + Seq::<u8>::empty() =~= encode_str(u.name)
            + encode_str(u.hash));
        assert(Seq::<u8>::empty() + encode_str(u.name) + encode_str(u.hash) =~= encode_str(u.name)
            + encode_str(u.hash));
    } else {
        assert(rs.push(u)[0] == rs[0]);
        assert(rs.push(u).drop_first() =~= rs.drop_first().push(u));
        lemma_encode_records_push(rs.drop_first(), u);
        let head = encode_str(rs[0].name) + encode_str(rs[0].hash);
        assert(head + (encode_records(rs.drop_first()) + encode_str(u.name) + encode_str(u.hash))
            =~= (head + encode_records(rs.drop_first())) + encode_str(u.name) + encode_str(
            u.hash,
        ));
    }
}

/// Decoding inverts the character encoding, whatever bytes follow it.
pub proof fn lemma_decode_chars_encode(s: Seq<char>, rest: Seq<u8>)
    ensures
        decode_chars(encode_chars(s) + rest, s.len() as nat) == Some((s, rest)),
    decreases s.len(),
{
    vstd::bytes::lemma_auto_spec_u32_to_from_le_bytes();
    if s.len() == 0 {
        assert(encode_chars(s) + rest =~= rest);
    } else {
        let b = encode_chars(s) + rest;
        let enc0 = spec_u32_to_le_bytes(s[0] as u32);
        lemma_encode_chars_len(s.drop_first());
        assert(b.take(4) =~= enc0);
        let v = spec_u32_from_le_bytes(b.take(4));
        assert(v == s[0] as u32);
        vstd::utf8::char_is_scalar(s[0]);
        vstd::utf8::char_u32_cast(s[0], v);
        assert(v as char == s[0]);
        assert(b.skip(4) =~= encode_chars(s.drop_first()) + rest);
        lemma_decode_chars_encode(s.drop_first(), rest);
        assert(seq![v as char] + s.drop_first() =~= s);
    }
}

/// Decoding inverts the string encoding, whatever bytes follow it.
pub proof fn lemma_decode_str_encode(s: Seq<char>, rest: Seq<u8>)
    requires
        s.len() <= u64::MAX,
    ensures
        decode_str(encode_str(s) + rest) == Some((s, rest)),
{
    vstd::bytes::lemma_auto_spec_u64_to_from_le_bytes();
    let b = encode_str(s) + rest;
    let lenb = spec_u64_to_le_bytes(s.len() as u64);
    lemma_encode_chars_len(s);
    assert(b.take(8) =~= lenb);
    assert(spec_u64_from_le_bytes(b.take(8)) == s.len() as u64);
    assert(b.skip(8) =~= encode_chars(s) + rest);
    lemma_decode_chars_encode(s, rest);
}

/// Decoding inverts the record encoding, whatever bytes follow it.
pub proof fn lemma_decode_records_encode(rs: Seq<UserView>, rest: Seq<u8>)
    requires
        records_bounded(rs),
    ensures
        decode_records(encode_records(rs) + rest, rs.len() as nat) == Some((rs, rest)),
    decreases rs.len(),
{
    if rs.len() == 0 {
        assert(encode_records(rs) + rest =~= rest);
    } else {
        let u = rs[0];
        let b = encode_records(rs) + rest;
        let after_name = encode_str(u.hash) + (encode_records(rs.drop_first()) + rest);
        assert(b =~= encode_str(u.name) + after_name);
        lemma_decode_str_encode(u.name, after_name);
        lemma_decode_str_encode(u.hash, encode_records(rs.drop_first()) + rest);
        assert(records_bounded(rs.drop_first()));
        lemma_decode_records_encode(rs.drop_first(), rest);
        assert(seq![UserView { name: u.name, hash: u.hash }] + rs.drop_first() =~= rs);
    }
}

/// Law: decoding a snapshot written by the encoder yields exactly the
/// records that were written — the encoding round-trips, hash strings
/// byte for byte.
pub proof fn lemma_snapshot_round_trip(rs: Seq<UserView>)
    requires
        rs.len() <= u64::MAX,
        records_bounded(rs),
    ensures
        decode_store(encode_store(rs)) == Some(rs),
{
    vstd::bytes::lemma_auto_spec_u64_to_from_le_bytes();
    let b = encode_store(rs);
    assert(b[0] == SNAPSHOT_VERSION);
    assert(b.subrange(1, 9) =~= spec_u64_to_le_bytes(rs.len() as u64));
    assert(b.skip(9) =~= encode_records(rs) + Seq::<u8>::empty());
    lemma_decode_records_encode(rs, Seq::empty());
}

/// Relies on `char::from_u32`: `Some` exactly for Unicode scalar values,
/// and then the character with that code point.
#[verifier::external_body]
pub(crate) fn char_from_u32(v: u32) -> (r: Option<char>)
    ensures
        r == (if is_scalar(v) {
            Some(v as char)
        } else {
            None::<char>
        }),
{
    char::from_u32(v)
}

/// Relies on `String`'s `FromIterator<char>`: collecting characters yields
/// the string of exactly those characters, in order.
#[verifier::external_body]
pub(crate) fn chars_to_string(cs: &Vec<char>) -> (r: String)
    ensures
        r@ == cs@,
{
    cs.iter().collect()
}

/// The characters of `s`, in order.
pub(crate) fn string_chars(s: &String) -> (r: Vec<char>)
    ensures
        r@ == s@,
{
    let mut it = s.as_str().chars();
    let mut r: Vec<char> = Vec::new();
    proof {
        assert(r@ + it.remaining() =~= s@);
    }
    loop
        invariant
            r@ + it.remaining() == s@,
        decreases s@.len() - r@.len(),
    {
        let ghost prev = it;
        let next = it.next();
        proof {
            vstd::string::next_postcondition(&prev, &it, next);
        }
        match next {
            Some(c) => {
                proof {
                    assert(r@.push(c) + it.remaining() =~= s@);
                }
                r.push(c);
            },
            None => {
                proof {
                    assert(r@ =~= s@);
                }
                return r;
            },
        }
    }
}

/// Appends the encoding of one string to `out`.
pub(crate) fn write_str(out: &mut Vec<u8>, s: &String)
    ensures
        final(out)@ == old(out)@ + encode_str(s@),
{
    let cs = string_chars(s);
    let mut lenb = u64_to_le_bytes(cs.len() as u64);
    out.append(&mut lenb);
    let ghost base = out@;
    let n = cs.len();
    let mut i: usize = 0;
    proof {
        assert(encode_chars(s@.take(0)) =~= Seq::<u8>::empty());
        assert(base + Seq::<u8>::empty() =~= base);
    }
    while i < n
        invariant
            i <= n,
            n == cs@.len(),
            cs@ == s@,
            base == old(out)@ + spec_u64_to_le_bytes(s@.len() as u64),
            out@ == base + encode_chars(s@.take(i as int)),
        decreases n - i,
    {
        let mut cb = u32_to_le_bytes(cs[i] as u32);
        out.append(&mut cb);
        proof {
            assert(s@.take(i + 1) =~= s@.take(i as int).push(s@[i as int]));
            lemma_encode_chars_push(s@.take(i as int), s@[i as int]);
            assert(base + encode_chars(s@.take(i as int)) + spec_u32_to_le_bytes(
                s@[i as int] as u32,
            ) =~= base + encode_chars(s@.take(i + 1)));
        }
        i = i + 1;
    }
    proof {
        assert(s@.take(n as int) =~= s@);
        assert(old(out)@ + spec_u64_to_le_bytes(s@.len() as u64) + encode_chars(s@) =~= old(out)@
            + encode_str(s@));
    }
}

/// Reads one length-prefixed string starting at `pos`; on success, the
/// string and the position just past it. Mirrors [`decode_str`] exactly.
#[verifier::loop_isolation(false)]
pub(crate) fn read_str(bytes: &Vec<u8>, pos: usize) -> (r: Option<(String, usize)>)
    requires
        pos <= bytes@.len(),
    ensures
        (match r {
            Some(sp) => pos <= sp.1 <= bytes@.len() && decode_str(bytes@.skip(pos as int)) == Some(
                (sp.0@, bytes@.skip(sp.1 as int)),
            ),
            None => decode_str(bytes@.skip(pos as int)) is None,
        }),
{
    if bytes.len() - pos < 8 {
        return None;
    }
    let lenslice = slice_subrange(bytes.as_slice(), pos, pos + 8);
    let n = u64_from_le_bytes(lenslice);
    proof {
        assert(bytes@.subrange(pos as int, pos + 8) =~= bytes@.skip(pos as int).take(8));
    }
    let start = pos + 8;
    let ghost suffix = bytes@.skip(start as int);
    proof {
        assert(bytes@.skip(pos as int).skip(8) =~= suffix);
    }
    let mut cur = start;
    let mut j: u64 = 0;
    let mut acc: Vec<char> = Vec::new();
    proof {
        assert(acc@ + Seq::<char>::empty() =~= acc@);
    }
    while j < n
        invariant
            start <= cur <= bytes@.len(),
            j <= n,
            suffix == bytes@.skip(start as int),
            (match decode_chars(bytes@.skip(cur as int), (n - j) as nat) {
                Some(p) => decode_chars(suffix, n as nat) == Some((acc@ + p.0, p.1)),
                None => decode_chars(suffix, n as nat) is None,
            }),
        decreases n - j,
    {
        if bytes.len() - cur < 4 {
            return None;
        }
        let cslice = slice_subrange(bytes.as_slice(), cur, cur + 4);
        let v = u32_from_le_bytes(cslice);
        proof {
            assert(bytes@.subrange(cur as int, cur + 4) =~= bytes@.skip(cur as int).take(4));
        }
        match char_from_u32(v) {
            Some(c) => {
                proof {
                    assert(bytes@.skip(cur as int).skip(4) =~= bytes@.skip(cur + 4));
                    match decode_chars(bytes@.skip(cur + 4), (n - j - 1) as nat) {
                        Some(p) => {
                            assert(acc@ + (seq![c] + p.0) =~= acc@.push(c) + p.0);
                        },
                        None => {},
                    }
                }
                acc.push(c);
                cur = cur + 4;
                j = j + 1;
            },
            None => {
                return None;
            },
        }
    }
    let s = chars_to_string(&acc);
    proof {
        assert(acc@ + Seq::<char>::empty() =~= acc@);
    }
    Some((s, cur))
}

} // verus!
