//! The primitive types of the wire: big-endian integers, packed bits and
//! length-prefixed strings, each with a decoder and an encoder.

use vstd::prelude::*;
use vstd::slice::{slice_subrange, slice_to_vec};
use vstd::utf8::{decode_utf8, encode_utf8, valid_utf8};
use crate::error::{syntax_error, ConException, TransError};

verus! {

/// A `short`: two octets, most significant first.
pub open spec fn be16(s: Seq<u8>) -> int {
    s[0] as int * 256 + s[1] as int
}

/// A `long`: four octets, most significant first.
pub open spec fn be32(s: Seq<u8>) -> int {
    be16(s.take(2)) * 65536 + be16(s.subrange(2, 4))
}

/// A `longlong`: eight octets, most significant first.
pub open spec fn be64(s: Seq<u8>) -> int {
    be32(s.take(4)) * 4294967296 + be32(s.subrange(4, 8))
}

#[verifier::opaque]
pub open spec fn enc16(x: int) -> Seq<u8> {
    seq![(x / 256) as u8, (x % 256) as u8]
}

#[verifier::opaque]
pub open spec fn enc32(x: int) -> Seq<u8> {
    enc16(x / 65536) + enc16(x % 65536)
}

#[verifier::opaque]
pub open spec fn enc64(x: int) -> Seq<u8> {
    enc32(x / 4294967296) + enc32(x % 4294967296)
}

pub proof fn lemma_be16(x: int, rest: Seq<u8>)
    requires
        0 <= x < 0x1_0000,
    ensures
        (enc16(x) + rest).len() == 2 + rest.len(),
        be16(enc16(x) + rest) == x,
        (enc16(x) + rest).skip(2) == rest,
{
    reveal(enc16);
    assert((enc16(x) + rest).skip(2) =~= rest);
}

pub proof fn lemma_be32(x: int, rest: Seq<u8>)
    requires
        0 <= x < 0x1_0000_0000,
    ensures
        (enc32(x) + rest).len() == 4 + rest.len(),
        be32(enc32(x) + rest) == x,
        (enc32(x) + rest).skip(4) == rest,
{
    reveal(enc32);
    let s = enc32(x) + rest;
    lemma_be16(x / 65536, Seq::empty());
    lemma_be16(x % 65536, Seq::empty());
    assert(s.take(2) =~= enc16(x / 65536) + Seq::empty());
    assert(s.subrange(2, 4) =~= enc16(x % 65536) + Seq::empty());
    assert(s.skip(4) =~= rest);
}

pub proof fn lemma_be64(x: int, rest: Seq<u8>)
    requires
        0 <= x < 0x1_0000_0000_0000_0000,
    ensures
        (enc64(x) + rest).len() == 8 + rest.len(),
        be64(enc64(x) + rest) == x,
        (enc64(x) + rest).skip(8) == rest,
{
    reveal(enc64);
    let s = enc64(x) + rest;
    lemma_be32(x / 4294967296, Seq::empty());
    lemma_be32(x % 4294967296, Seq::empty());
    assert(s.take(4) =~= enc32(x / 4294967296) + Seq::empty());
    assert(s.subrange(4, 8) =~= enc32(x % 4294967296) + Seq::empty());
    assert(s.skip(8) =~= rest);
}

/// Reads one `octet`.
pub fn octet(input: &[u8]) -> (r: Result<(&[u8], u8), TransError>)
    ensures
        r is Ok <==> input@.len() >= 1,
        r matches Ok((rest, v)) ==> v == input@[0] && rest@ == input@.skip(1),
        r matches Err(e) ==> e == syntax_error(),
{
    if input.len() < 1 {
        return Err(ConException::SyntaxError.into_trans());
    }
    Ok((slice_subrange(input, 1, input.len()), input[0]))
}

/// Reads a `short`.
pub fn short(input: &[u8]) -> (r: Result<(&[u8], u16), TransError>)
    ensures
        r is Ok <==> input@.len() >= 2,
        r matches Ok((rest, v)) ==> v == be16(input@) && rest@ == input@.skip(2),
        r matches Err(e) ==> e == syntax_error(),
{
    if input.len() < 2 {
        return Err(ConException::SyntaxError.into_trans());
    }
    let v = (input[0] as u16) * 256 + (input[1] as u16);
    Ok((slice_subrange(input, 2, input.len()), v))
}

/// Reads a `long`.
pub fn long(input: &[u8]) -> (r: Result<(&[u8], u32), TransError>)
    ensures
        r is Ok <==> input@.len() >= 4,
        r matches Ok((rest, v)) ==> v == be32(input@) && rest@ == input@.skip(4),
        r matches Err(e) ==> e == syntax_error(),
{
    if input.len() < 4 {
        return Err(ConException::SyntaxError.into_trans());
    }
    let (rest, hi) = short(input)?;
    let (rest, lo) = short(rest)?;
    assert(input@.skip(2).skip(2) =~= input@.skip(4));
    assert(input@.skip(2) =~= input@.subrange(2, 4) + input@.skip(4));
    assert(input@.take(2) =~= input@.subrange(0, 2));
    Ok((rest, (hi as u32) * 65536 + (lo as u32)))
}

/// Reads a `longlong`.
pub fn longlong(input: &[u8]) -> (r: Result<(&[u8], u64), TransError>)
    ensures
        r is Ok <==> input@.len() >= 8,
        r matches Ok((rest, v)) ==> v == be64(input@) && rest@ == input@.skip(8),
        r matches Err(e) ==> e == syntax_error(),
{
    if input.len() < 8 {
        return Err(ConException::SyntaxError.into_trans());
    }
    let (rest, hi) = long(input)?;
    let (rest, lo) = long(rest)?;
    let ghost s = input@;
    assert(s.skip(4).skip(4) =~= s.skip(8));
    assert(s.skip(4).take(2) =~= s.subrange(4, 8).take(2));
    assert(s.skip(4).subrange(2, 4) =~= s.subrange(4, 8).subrange(2, 4));
    assert(s.take(4).take(2) =~= s.take(2));
    assert(s.take(4).subrange(2, 4) =~= s.subrange(2, 4));
    Ok((rest, (hi as u64) * 4294967296 + (lo as u64)))
}

/// Reads a `timestamp`: seconds since the epoch, as a `longlong`.
pub fn timestamp(input: &[u8]) -> (r: Result<(&[u8], u64), TransError>)
    ensures
        r is Ok <==> input@.len() >= 8,
        r matches Ok((rest, v)) ==> v == be64(input@) && rest@ == input@.skip(8),
        r matches Err(e) ==> e == syntax_error(),
{
    longlong(input)
}

pub fn write_octet(out: &mut Vec<u8>, x: u8)
    ensures
        final(out)@ == old(out)@.push(x),
{
    out.push(x);
}

pub fn write_short(out: &mut Vec<u8>, x: u16)
    ensures
        final(out)@ == old(out)@ + enc16(x as int),
{
    out.push((x / 256) as u8);
    out.push((x % 256) as u8);
    proof {
        reveal(enc16);
    }
    assert(final(out)@ =~= old(out)@ + enc16(x as int));
}

pub fn write_long(out: &mut Vec<u8>, x: u32)
    ensures
        final(out)@ == old(out)@ + enc32(x as int),
{
    write_short(out, (x / 65536) as u16);
    write_short(out, (x % 65536) as u16);
    proof {
        reveal(enc32);
    }
    assert(final(out)@ =~= old(out)@ + enc32(x as int));
}

pub fn write_longlong(out: &mut Vec<u8>, x: u64)
    ensures
        final(out)@ == old(out)@ + enc64(x as int),
{
    write_long(out, (x / 4294967296) as u32);
    write_long(out, (x % 4294967296) as u32);
    proof {
        reveal(enc64);
    }
    assert(final(out)@ =~= old(out)@ + enc64(x as int));
}

/// Appends the bytes of `b` to `out`.
pub fn write_bytes(out: &mut Vec<u8>, b: &[u8])
    ensures
        final(out)@ == old(out)@ + b@,
{
    let ghost start = out@;
    let mut i: usize = 0;
    while i < b.len()
        invariant
            i <= b@.len(),
            out@ == start + b@.take(i as int),
        decreases b@.len() - i,
    {
        out.push(b[i]);
        i = i + 1;
        assert(b@.take(i as int) =~= b@.take(i as int - 1).push(b@[i - 1]));
    }
    assert(b@.take(b@.len() as int) =~= b@);
}

/// Bit `k` (0 = least significant) of an octet.
pub open spec fn bit_of(b: u8, k: int) -> bool {
    (b >> (k as u8)) & 1u8 == 1u8
}

/// The first `n` bits of `bytes`, packed least significant bit first.
pub open spec fn unpack_bits(bytes: Seq<u8>, n: int) -> Seq<bool> {
    Seq::new(n as nat, |i: int| bit_of(bytes[i / 8], i % 8))
}

/// The octets that `n` packed bits take.
pub open spec fn bit_octets(n: int) -> int {
    if n % 8 == 0 { n / 8 } else { n / 8 + 1 }
}

/// Reads `amount` consecutive `bit` fields, packed into whole octets.
pub fn bit(input: &[u8], amount: usize) -> (r: Result<(&[u8], Vec<bool>), TransError>)
    ensures
        r is Ok <==> input@.len() >= bit_octets(amount as int),
        r matches Ok((rest, v)) ==> v@ == unpack_bits(input@, amount as int)
            && rest@ == input@.skip(bit_octets(amount as int)),
        r matches Err(e) ==> e == syntax_error(),
{
    let octets: usize = if amount % 8 == 0 { amount / 8 } else { amount / 8 + 1 };
    if input.len() < octets {
        return Err(ConException::SyntaxError.into_trans());
    }
    let mut vec: Vec<bool> = Vec::new();
    let mut total_index: usize = 0;
    while total_index < amount
        invariant
            total_index <= amount,
            octets == bit_octets(amount as int),
            octets <= input@.len(),
            vec@ == unpack_bits(input@, total_index as int),
        decreases amount - total_index,
    {
        let byte = input[total_index / 8];
        let byte_index = (total_index % 8) as u8;
        let next_bit = (byte >> byte_index) & 1u8;
        vec.push(next_bit == 1u8);
        total_index = total_index + 1;
        assert(vec@ =~= unpack_bits(input@, total_index as int));
    }
    Ok((slice_subrange(input, octets, input.len()), vec))
}

/// Octet `j` of packed bits, as far as its `k` lowest bits: bit `m` is set
/// where `bits[8 * j + m]` holds.
pub open spec fn packed_octet(bits: Seq<bool>, j: int, k: nat) -> u8
    decreases k,
{
    if k == 0 {
        0
    } else {
        let prev = packed_octet(bits, j, (k - 1) as nat);
        if 8 * j + k - 1 < bits.len() && bits[8 * j + k - 1] {
            prev | (1u8 << ((k - 1) as u8))
        } else {
            prev
        }
    }
}

/// Bits packed least significant first into whole octets.
pub open spec fn pack_bits(bits: Seq<bool>) -> Seq<u8> {
    Seq::new(bit_octets(bits.len() as int) as nat, |j: int| packed_octet(bits, j, 8))
}

proof fn lemma_or_bit(b: u8, k: u8, m: u8)
    requires
        k < 8,
        m < 8,
    ensures
        ((b | (1u8 << k)) >> m) & 1u8 == 1u8 <==> (m == k || (b >> m) & 1u8 == 1u8),
{
    assert(((b | (1u8 << k)) >> m) & 1u8 == 1u8 <==> (m == k || (b >> m) & 1u8 == 1u8))
        by (bit_vector)
        requires
            k < 8,
            m < 8,
    ;
}

proof fn lemma_packed_octet(bits: Seq<bool>, j: int, k: nat, m: int)
    requires
        0 <= j,
        k <= 8,
        0 <= m < 8,
    ensures
        bit_of(packed_octet(bits, j, k), m) == (m < k && 8 * j + m < bits.len() && bits[8 * j + m]),
    decreases k,
{
    if k == 0 {
        let mm = m as u8;
        assert((0u8 >> mm) & 1u8 != 1u8) by (bit_vector);
    } else {
        lemma_packed_octet(bits, j, (k - 1) as nat, m);
        let prev = packed_octet(bits, j, (k - 1) as nat);
        lemma_or_bit(prev, (k - 1) as u8, m as u8);
    }
}

/// Unpacking packed bits gives them back, and leaves what follows them.
pub proof fn lemma_bits_round_trip(bits: Seq<bool>, rest: Seq<u8>)
    ensures
        unpack_bits(pack_bits(bits) + rest, bits.len() as int) == bits,
        (pack_bits(bits) + rest).len() >= bit_octets(bits.len() as int),
        (pack_bits(bits) + rest).skip(bit_octets(bits.len() as int)) == rest,
{
    let s = pack_bits(bits) + rest;
    let n = bits.len() as int;
    assert forall|i: int| 0 <= i < n implies #[trigger] unpack_bits(s, n)[i] == bits[i] by {
        lemma_packed_octet(bits, i / 8, 8, i % 8);
        assert(s[i / 8] == packed_octet(bits, i / 8, 8));
    }
    assert(unpack_bits(s, n) =~= bits);
    assert(s.skip(bit_octets(n)) =~= rest);
}

/// Writes consecutive `bit` fields, packed least significant first into whole octets.
pub fn write_bits(out: &mut Vec<u8>, bits: &[bool])
    ensures
        final(out)@ == old(out)@ + pack_bits(bits@),
{
    let n = bits.len();
    let octets: usize = if n % 8 == 0 { n / 8 } else { n / 8 + 1 };
    let mut j: usize = 0;
    while j < octets
        invariant
            octets == bit_octets(n as int),
            n == bits@.len(),
            j <= octets,
            out@ == old(out)@ + pack_bits(bits@).take(j as int),
        decreases octets - j,
    {
        let mut byte: u8 = 0;
        let mut k: usize = 0;
        while k < 8
            invariant
                k <= 8,
                j < octets,
                n == bits@.len(),
                octets == bit_octets(n as int),
                byte == packed_octet(bits@, j as int, k as nat),
            decreases 8 - k,
        {
            let idx = j * 8 + k;
            if idx < n && bits[idx] {
                byte = byte | (1u8 << (k as u8));
            }
            k = k + 1;
        }
        out.push(byte);
        j = j + 1;
        assert(pack_bits(bits@).take(j as int) =~= pack_bits(bits@).take(j - 1).push(byte));
    }
    assert(pack_bits(bits@).take(octets as int) =~= pack_bits(bits@));
}

/// Relies on `String::from_utf8`: it accepts exactly the valid UTF-8 byte
/// strings, and the string it returns holds the characters they encode.
#[verifier::external_body]
pub(crate) fn string_from_utf8(b: &[u8]) -> (r: Option<String>)
    ensures
        r is Some <==> valid_utf8(b@),
        r matches Some(s) ==> s@ == decode_utf8(b@),
{
    String::from_utf8(b.to_vec()).ok()
}

/// Reads a `shortstr`: an octet length, then that many octets of UTF-8.
pub fn shortstr(input: &[u8]) -> (r: Result<(&[u8], String), TransError>)
    ensures
        r is Ok <==> input@.len() >= 1 && input@.len() >= 1 + input@[0]
            && valid_utf8(input@.subrange(1, 1 + input@[0])),
        r matches Ok((rest, s)) ==> s@ == decode_utf8(input@.subrange(1, 1 + input@[0]))
            && rest@ == input@.skip(1 + input@[0]),
        r matches Err(e) ==> e == syntax_error(),
{
    let (rest, len) = octet(input)?;
    let n = len as usize;
    if rest.len() < n {
        return Err(ConException::SyntaxError.into_trans());
    }
    let data = slice_subrange(rest, 0, n);
    let rest = slice_subrange(rest, n, rest.len());
    assert(data@ =~= input@.subrange(1, 1 + input@[0]));
    assert(rest@ =~= input@.skip(1 + input@[0]));
    match string_from_utf8(data) {
        Some(s) => Ok((rest, s)),
        None => Err(ConException::SyntaxError.into_trans()),
    }
}

/// Reads a `longstr`: a `long` length, then that many opaque octets.
pub fn longstr(input: &[u8]) -> (r: Result<(&[u8], Vec<u8>), TransError>)
    ensures
        r is Ok <==> input@.len() >= 4 && input@.len() >= 4 + be32(input@),
        r matches Ok((rest, s)) ==> s@ == input@.subrange(4, 4 + be32(input@))
            && rest@ == input@.skip(4 + be32(input@)),
        r matches Err(e) ==> e == syntax_error(),
{
    let (rest, len) = long(input)?;
    if (rest.len() as u64) < (len as u64) {
        return Err(ConException::SyntaxError.into_trans());
    }
    let n = len as usize;
    let data = slice_subrange(rest, 0, n);
    let rest = slice_subrange(rest, n, rest.len());
    assert(data@ =~= input@.subrange(4, 4 + be32(input@)));
    assert(rest@ =~= input@.skip(4 + be32(input@)));
    Ok((rest, slice_to_vec(data)))
}

/// The encoding of a `shortstr` holding the characters `s`.
pub open spec fn enc_shortstr(s: Seq<char>) -> Seq<u8> {
    seq![encode_utf8(s).len() as u8] + encode_utf8(s)
}

/// The encoding of a `longstr` holding the octets `b`.
pub open spec fn enc_longstr(b: Seq<u8>) -> Seq<u8> {
    enc32(b.len() as int) + b
}

/// Writes a `shortstr`; its UTF-8 encoding must fit in 255 octets.
pub fn write_shortstr(out: &mut Vec<u8>, s: &str)
    requires
        encode_utf8(s@).len() <= 255,
    ensures
        final(out)@ == old(out)@ + enc_shortstr(s@),
{
    let b = s.as_bytes();
    out.push(b.len() as u8);
    write_bytes(out, b);
    assert(final(out)@ =~= old(out)@ + enc_shortstr(s@));
}

/// Writes a `longstr`; it must fit in a `long` length.
pub fn write_longstr(out: &mut Vec<u8>, b: &[u8])
    requires
        b@.len() <= u32::MAX,
    ensures
        final(out)@ == old(out)@ + enc_longstr(b@),
{
    write_long(out, b.len() as u32);
    write_bytes(out, b);
    assert(final(out)@ =~= old(out)@ + enc_longstr(b@));
}

} // verus!
