//! Token identifiers: an opaque, self-checking handle that embeds the issuing
//! registry and a numeric token index.
//!
//! Byte layout: the four magic bytes `\x0Atid`, the registry's principal
//! bytes, the index as four big-endian bytes, and one check byte, the sum of
//! all preceding bytes modulo 256. The text form is the principal text of
//! those bytes.
use vstd::prelude::*;
use crate::principal::{Principal, MAX_PRINCIPAL_LEN};

verus! {

/// A token identifier in its text form.
pub type TokenIdentifier = String;

/// The registry (canister) that issues a token.
#[derive(Clone, Copy)]
pub struct CanisterId(pub Principal);

/// The index of a token within its registry.
#[derive(Clone, Copy)]
pub struct TokenIndex(pub u32);

impl TokenIndex {
    pub fn get_value(&self) -> (r: u32)
        ensures
            r == self.0,
    {
        self.0
    }
}

/// A decoded token identifier.
#[derive(Clone, Copy)]
pub struct TokenObj {
    pub canister: CanisterId,
    pub index: TokenIndex,
}

/// Why an identifier could not be decoded.
#[derive(Clone, Copy, PartialEq, Eq, Structural, Debug)]
pub enum DecodeError {
    /// Fewer bytes than the magic, the index and the check byte.
    TooShort,
    /// The magic bytes are missing.
    BadMagic,
    /// The check byte does not match the rest.
    BadChecksum,
    /// The embedded registry has more bytes than a principal can hold.
    RegistryTooLong,
    /// The text is not the principal text of any bytes.
    InvalidText,
    /// The identifier was issued by another registry.
    ForeignRegistry,
}

/// The number of bytes besides the registry's.
pub const TOKEN_OVERHEAD: usize = 9;

pub open spec fn magic() -> Seq<u8> {
    seq![10u8, 116u8, 105u8, 100u8]
}

pub open spec fn be32(i: u32) -> Seq<u8> {
    seq![(i >> 24u32) as u8, (i >> 16u32) as u8, (i >> 8u32) as u8, i as u8]
}

pub open spec fn from_be32(b: Seq<u8>) -> u32 {
    ((b[0] as u32) << 24u32) | ((b[1] as u32) << 16u32) | ((b[2] as u32) << 8u32) | (b[3] as u32)
}

pub open spec fn byte_sum(s: Seq<u8>) -> nat
    decreases s.len(),
{
    if s.len() == 0 {
        0
    } else {
        (byte_sum(s.drop_last()) + s.last()) as nat
    }
}

/// The check byte of `s`.
pub open spec fn check_byte(s: Seq<u8>) -> u8 {
    (byte_sum(s) % 256) as u8
}

/// The identifier's bytes without the check byte.
pub open spec fn token_payload(registry: Seq<u8>, index: u32) -> Seq<u8> {
    magic() + registry + be32(index)
}

/// The bytes of the identifier of token `index` issued by `registry`.
pub open spec fn token_bytes(registry: Seq<u8>, index: u32) -> Seq<u8> {
    token_payload(registry, index).push(check_byte(token_payload(registry, index)))
}

/// What decoding `b` yields: the registry's bytes and the index, or why not.
pub open spec fn decode_spec(b: Seq<u8>) -> Result<(Seq<u8>, u32), DecodeError> {
    if b.len() < TOKEN_OVERHEAD {
        Err(DecodeError::TooShort)
    } else if b.subrange(0, 4) != magic() {
        Err(DecodeError::BadMagic)
    } else if b.last() != check_byte(b.drop_last()) {
        Err(DecodeError::BadChecksum)
    } else if b.len() - TOKEN_OVERHEAD > MAX_PRINCIPAL_LEN {
        Err(DecodeError::RegistryTooLong)
    } else {
        Ok((b.subrange(4, b.len() - 5), from_be32(b.subrange(b.len() - 5, b.len() - 1))))
    }
}

/// What decoding `b` on behalf of registry `own` yields: the index, or why not.
pub open spec fn decode_own_spec(own: Seq<u8>, b: Seq<u8>) -> Result<u32, DecodeError> {
    match decode_spec(b) {
        Ok((r, i)) => if r == own {
            Ok(i)
        } else {
            Err(DecodeError::ForeignRegistry)
        },
        Err(e) => Err(e),
    }
}

proof fn lemma_be32_round_trip(i: u32)
    ensures
        from_be32(be32(i)) == i,
{
    let b = be32(i);
    let b0 = (i >> 24u32) as u8;
    let b1 = (i >> 16u32) as u8;
    let b2 = (i >> 8u32) as u8;
    let b3 = i as u8;
    assert(b[0] == b0 && b[1] == b1 && b[2] == b2 && b[3] == b3);
    assert(((b0 as u32) << 24u32) | ((b1 as u32) << 16u32) | ((b2 as u32) << 8u32) | (b3 as u32)
        == i) by (bit_vector)
        requires
            b0 == (i >> 24u32) as u8,
            b1 == (i >> 16u32) as u8,
            b2 == (i >> 8u32) as u8,
            b3 == i as u8,
    ;
}

proof fn lemma_byte_sum_update(s: Seq<u8>, k: int, v: u8)
    requires
        0 <= k < s.len(),
    ensures
        byte_sum(s.update(k, v)) + s[k] == byte_sum(s) + v,
    decreases s.len(),
{
    let t = s.update(k, v);
    if k == s.len() - 1 {
        assert(t.drop_last() =~= s.drop_last());
    } else {
        assert(t.drop_last() =~= s.drop_last().update(k, v));
        lemma_byte_sum_update(s.drop_last(), k, v);
    }
}

/// Decoding the identifier of token `index` issued by `registry` gives back
/// `registry` and `index`.
pub proof fn lemma_round_trip(registry: Seq<u8>, index: u32)
    requires
        registry.len() <= MAX_PRINCIPAL_LEN,
    ensures
        decode_spec(token_bytes(registry, index)) == Ok::<(Seq<u8>, u32), DecodeError>(
            (registry, index),
        ),
{
    let p = token_payload(registry, index);
    let b = token_bytes(registry, index);
    let n = b.len();
    assert(b.drop_last() =~= p);
    assert(b.subrange(0, 4) =~= magic());
    assert(b.subrange(4, n - 5) =~= registry);
    assert(b.subrange(n - 5, n - 1) =~= be32(index));
    lemma_be32_round_trip(index);
}

/// An identifier issued by another registry is rejected, not read as one of
/// this registry's tokens.
pub proof fn lemma_foreign_rejected(own: Seq<u8>, registry: Seq<u8>, index: u32)
    requires
        registry.len() <= MAX_PRINCIPAL_LEN,
        registry != own,
    ensures
        decode_own_spec(own, token_bytes(registry, index)) == Err::<u32, DecodeError>(
            DecodeError::ForeignRegistry,
        ),
{
    lemma_round_trip(registry, index);
}

/// An identifier with any one byte changed no longer decodes.
pub proof fn lemma_flipped_byte_rejected(registry: Seq<u8>, index: u32, k: int, v: u8)
    requires
        registry.len() <= MAX_PRINCIPAL_LEN,
        0 <= k < token_bytes(registry, index).len(),
        token_bytes(registry, index)[k] != v,
    ensures
        decode_spec(token_bytes(registry, index).update(k, v)) is Err,
{
    let p = token_payload(registry, index);
    let b = token_bytes(registry, index);
    let c = b.update(k, v);
    let n = b.len();
    assert(b.drop_last() =~= p);
    if k < 4 {
        assert(c.subrange(0, 4)[k] != magic()[k]);
    } else if k == n - 1 {
        assert(c.drop_last() =~= p);
    } else {
        assert(c.drop_last() =~= p.update(k, v));
        lemma_byte_sum_update(p, k, v);
        assert(c.last() == b.last());
    }
}

fn check_byte_of(s: &Vec<u8>, n: usize) -> (r: u8)
    requires
        n <= s@.len(),
    ensures
        r == check_byte(s@.subrange(0, n as int)),
{
    let mut acc: u64 = 0;
    let mut i: usize = 0;
    while i < n
        invariant
            n <= s@.len(),
            i <= n,
            acc < 256,
            acc == byte_sum(s@.subrange(0, i as int)) % 256,
        decreases n - i,
    {
        let ghost prev = s@.subrange(0, i as int);
        assert(s@.subrange(0, i + 1).drop_last() =~= prev);
        proof {
            vstd::arithmetic::div_mod::lemma_add_mod_noop(byte_sum(prev) as int, s@[i as int] as int, 256);
        }
        acc = (acc + s[i] as u64) % 256;
        i = i + 1;
    }
    acc as u8
}

/// The bytes of the identifier of token `index` issued by registry `cid`.
pub fn encode_token_bytes(cid: &CanisterId, index: &TokenIndex) -> (r: Vec<u8>)
    ensures
        r@ == token_bytes(cid.0@, index.0),
        decode_spec(r@) == Ok::<(Seq<u8>, u32), DecodeError>((cid.0@, index.0)),
{
    let mut v: Vec<u8> = Vec::new();
    v.push(10u8);
    v.push(116u8);
    v.push(105u8);
    v.push(100u8);
    let mut reg = cid.0.as_slice();
    proof {
        lemma_round_trip(cid.0@, index.0);
    }
    v.append(&mut reg);
    let i = index.0;
    v.push((i >> 24u32) as u8);
    v.push((i >> 16u32) as u8);
    v.push((i >> 8u32) as u8);
    v.push(i as u8);
    assert(v@ =~= token_payload(cid.0@, index.0));
    let n = v.len();
    let c = check_byte_of(&v, n);
    assert(v@.subrange(0, n as int) =~= v@);
    v.push(c);
    v
}

/// Decodes the bytes of an identifier into its registry and index.
pub fn decode_token_bytes(b: &Vec<u8>) -> (r: Result<TokenObj, DecodeError>)
    ensures
        match r {
            Ok(o) => decode_spec(b@) == Ok::<(Seq<u8>, u32), DecodeError>((o.canister.0@, o.index.0)),
            Err(e) => decode_spec(b@) == Err::<(Seq<u8>, u32), DecodeError>(e),
        },
{
    let n = b.len();
    if n < TOKEN_OVERHEAD {
        return Err(DecodeError::TooShort);
    }
    if !(b[0] == 10u8 && b[1] == 116u8 && b[2] == 105u8 && b[3] == 100u8) {
        proof {
            if b@.subrange(0, 4) == magic() {
                assert(b@.subrange(0, 4)[0] == b@[0]);
                assert(b@.subrange(0, 4)[1] == b@[1]);
                assert(b@.subrange(0, 4)[2] == b@[2]);
                assert(b@.subrange(0, 4)[3] == b@[3]);
            }
        }
        return Err(DecodeError::BadMagic);
    }
    assert(b@.subrange(0, 4) =~= magic());
    let c = check_byte_of(b, n - 1);
    assert(b@.subrange(0, n - 1) =~= b@.drop_last());
    if b[n - 1] != c {
        return Err(DecodeError::BadChecksum);
    }
    if n - TOKEN_OVERHEAD > MAX_PRINCIPAL_LEN {
        return Err(DecodeError::RegistryTooLong);
    }
    let reg = Principal::from_slice(&b.as_slice()[4..n - 5]);
    let idx = ((b[n - 5] as u32) << 24u32) | ((b[n - 4] as u32) << 16u32) | ((b[n - 3] as u32)
        << 8u32) | (b[n - 2] as u32);
    let ghost tail = b@.subrange(n - 5, n - 1);
    assert(tail[0] == b@[n - 5] && tail[1] == b@[n - 4] && tail[2] == b@[n - 3] && tail[3] == b@[n - 2]);
    Ok(TokenObj { canister: CanisterId(reg), index: TokenIndex(idx) })
}

/// Decodes the bytes of an identifier that registry `own` issued.
pub fn decode_own_token_bytes(own: &CanisterId, b: &Vec<u8>) -> (r: Result<TokenIndex, DecodeError>)
    ensures
        match r {
            Ok(i) => decode_own_spec(own.0@, b@) == Ok::<u32, DecodeError>(i.0),
            Err(e) => decode_own_spec(own.0@, b@) == Err::<u32, DecodeError>(e),
        },
{
    match decode_token_bytes(b) {
        Ok(o) => {
            if o.canister.0.same_bytes(&own.0) {
                Ok(o.index)
            } else {
                Err(DecodeError::ForeignRegistry)
            }
        },
        Err(e) => Err(e),
    }
}

/// The principal text of `b`.
pub uninterp spec fn principal_text(b: Seq<u8>) -> Seq<char>;

/// The bytes of the principal that text `t` spells, if it spells one.
pub uninterp spec fn principal_bytes_of(t: Seq<char>) -> Option<Seq<u8>>;

/// Relies on candid's `Principal::to_text`: the principal text of the bytes
/// (base 32 of a CRC-32 and the bytes, in dash-separated groups), which
/// `Principal::from_text` reads back to the same bytes: it accepts a text
/// exactly when its check sum matches and it equals the printed form.
#[verifier::external_body]
fn principal_to_text(b: &Vec<u8>) -> (r: String)
    requires
        b@.len() <= MAX_PRINCIPAL_LEN,
    ensures
        r@ == principal_text(b@),
        principal_bytes_of(r@) == Some(b@),
{
    candid::Principal::from_slice(b.as_slice()).to_text()
}

/// Relies on candid's `Principal::from_text`: the bytes the text spells, if
/// its check sum and grouping are right; it yields at most 29 bytes.
#[verifier::external_body]
fn principal_from_text(t: &str) -> (r: Option<Vec<u8>>)
    ensures
        match r {
            Some(v) => principal_bytes_of(t@) == Some(v@),
            None => principal_bytes_of(t@) is None,
        },
        r is Some ==> r->Some_0@.len() <= MAX_PRINCIPAL_LEN,
{
    candid::Principal::from_text(t).ok().map(|p| p.as_slice().to_vec())
}

/// What decoding the text `t` yields: the registry's bytes and the index, or why not.
pub open spec fn decode_text_spec(t: Seq<char>) -> Result<(Seq<u8>, u32), DecodeError> {
    match principal_bytes_of(t) {
        Some(b) => decode_spec(b),
        None => Err(DecodeError::InvalidText),
    }
}

/// The text identifier of token `index` issued by registry `cid`.
pub fn encode_token_id(cid: &CanisterId, index: &TokenIndex) -> (r: TokenIdentifier)
    requires
        cid.0@.len() + TOKEN_OVERHEAD <= MAX_PRINCIPAL_LEN,
    ensures
        r@ == principal_text(token_bytes(cid.0@, index.0)),
        decode_text_spec(r@) == Ok::<(Seq<u8>, u32), DecodeError>((cid.0@, index.0)),
        decode_own_text_spec(cid.0@, r@) == Ok::<u32, DecodeError>(index.0),
{
    let b = encode_token_bytes(cid, index);
    principal_to_text(&b)
}

/// Decodes a text identifier into its registry and index.
pub fn decode_token_id(t: &TokenIdentifier) -> (r: Result<TokenObj, DecodeError>)
    ensures
        match r {
            Ok(o) => decode_text_spec(t@) == Ok::<(Seq<u8>, u32), DecodeError>(
                (o.canister.0@, o.index.0),
            ),
            Err(e) => decode_text_spec(t@) == Err::<(Seq<u8>, u32), DecodeError>(e),
        },
{
    match principal_from_text(t.as_str()) {
        Some(b) => decode_token_bytes(&b),
        None => Err(DecodeError::InvalidText),
    }
}

/// What decoding the text `t` on behalf of registry `own` yields: the index,
/// or why not.
pub open spec fn decode_own_text_spec(own: Seq<u8>, t: Seq<char>) -> Result<u32, DecodeError> {
    match principal_bytes_of(t) {
        Some(b) => decode_own_spec(own, b),
        None => Err(DecodeError::InvalidText),
    }
}

/// Decodes a text identifier that registry `own` issued into its index.
pub fn decode_own_token_id(own: &CanisterId, t: &TokenIdentifier) -> (r: Result<TokenIndex, DecodeError>)
    ensures
        match r {
            Ok(i) => decode_own_text_spec(own.0@, t@) == Ok::<u32, DecodeError>(i.0),
            Err(e) => decode_own_text_spec(own.0@, t@) == Err::<u32, DecodeError>(e),
        },
{
    match principal_from_text(t.as_str()) {
        Some(b) => decode_own_token_bytes(own, &b),
        None => Err(DecodeError::InvalidText),
    }
}

} // verus!
