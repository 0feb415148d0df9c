//! The packed byte layout: fixed-width big-endian integers and raw byte spans,
//! concatenated without length prefixes or padding.

use crate::big_endian::{
    be_bytes, be_value, lemma_be_bytes_len, lemma_be_bytes_of_be_value, lemma_be_value_bound,
    lemma_be_value_leading_byte, lemma_be_value_of_be_bytes, lemma_be_value_skip_zeros,
    lemma_byte_len_exact, minimal_be_bytes,
};
use crate::error::EngineError;
use crate::uint256::{lemma_pow256_values, pow2_256, Uint256};
use vstd::slice::slice_subrange;
use vstd::prelude::*;

verus! {

/// The number of bytes of an address.
pub const ADDRESS_LEN: usize = 20;

/// The number of bytes of a task prefix: a 32-byte nonce and a 20-byte address.
pub const PREFIX_LEN: usize = 52;

/// The prefix of a task: the nonce as 32 big-endian bytes, then the address.
pub open spec fn packed_prefix(nonce: nat, address: Seq<u8>) -> Seq<u8> {
    be_bytes(nonce, 32) + address
}

/// Packs a 256-bit integer and an address into the 52-byte task prefix.
/// An address that does not have exactly 20 bytes is rejected.
pub fn solidity_pack_uint_address(num: Uint256, addr: &[u8]) -> (r: Result<Vec<u8>, EngineError>)
    ensures
        addr@.len() != 20 ==> r == Err::<Vec<u8>, EngineError>(EngineError::EncodingFailure),
        addr@.len() == 20 ==> r is Ok && r->Ok_0@ == packed_prefix(num@, addr@) && r->Ok_0@.len()
            == 52,
{
    if addr.len() != ADDRESS_LEN {
        return Err(EngineError::EncodingFailure);
    }
    let mut result: Vec<u8> = Vec::with_capacity(PREFIX_LEN);
    let buffer = num.to_big_endian();
    result.extend_from_slice(buffer.as_slice());
    result.extend_from_slice(addr);
    proof {
        lemma_be_bytes_len(num@, 32);
        assert(result@ =~= be_bytes(num@, 32) + addr@);
    }
    Ok(result)
}

/// Appends to `output` the bytes, then the integer as 32 big-endian bytes.
/// What `output` held before stays in front.
pub fn solidity_pack_bytes_uint_into(bytes: &[u8], num: Uint256, output: &mut Vec<u8>)
    ensures
        final(output)@ == old(output)@ + bytes@ + be_bytes(num@, 32),
{
    output.extend_from_slice(bytes);
    let buffer = num.to_big_endian();
    output.extend_from_slice(buffer.as_slice());
    proof {
        lemma_be_bytes_len(num@, 32);
        assert(output@ =~= old(output)@ + bytes@ + be_bytes(num@, 32));
    }
}

/// The bytes followed by the integer as 32 big-endian bytes.
pub fn solidity_pack_bytes_uint(bytes: Vec<u8>, num: Uint256) -> (result: Vec<u8>)
    ensures
        result@ == bytes@ + be_bytes(num@, 32),
{
    let mut result: Vec<u8> = Vec::new();
    solidity_pack_bytes_uint_into(bytes.as_slice(), num, &mut result);
    assert(result@ =~= bytes@ + be_bytes(num@, 32));
    result
}

/// Decoding a packed prefix gives back what was packed: its first 32 bytes
/// spell the nonce as a big-endian integer, and the next 20 bytes are the
/// address.
pub proof fn lemma_prefix_round_trip(nonce: nat, address: Seq<u8>)
    requires
        nonce < pow2_256(),
        address.len() == 20,
    ensures
        packed_prefix(nonce, address).len() == 52,
        be_value(packed_prefix(nonce, address).subrange(0, 32)) == nonce,
        packed_prefix(nonce, address).subrange(32, 52) == address,
{
    lemma_be_bytes_len(nonce, 32);
    lemma_pow256_values();
    lemma_be_value_of_be_bytes(nonce, 32);
    assert(packed_prefix(nonce, address).subrange(0, 32) =~= be_bytes(nonce, 32));
    assert(packed_prefix(nonce, address).subrange(32, 52) =~= address);
}

/// A value of the packed encoding.
pub enum Token {
    /// A 20-byte address, packed as it is.
    Address([u8; 20]),
    /// An unsigned integer, packed in the shortest big-endian form.
    Uint(Uint256),
    /// A byte string, packed as it is.
    Bytes(Vec<u8>),
    /// A value of a kind that the packed encoding does not take.
    Other,
}

/// The first token of a kind that the packed encoding does not take.
#[derive(Clone, Copy, Debug, PartialEq, Eq, Structural)]
pub struct UnsupportedToken {
    /// The place of the token in the list.
    pub index: usize,
}

/// The bytes that one token is packed to.
pub open spec fn packed_token(token: Token) -> Seq<u8> {
    match token {
        Token::Address(a) => a@,
        Token::Uint(v) => minimal_be_bytes(v@),
        Token::Bytes(b) => b@,
        Token::Other => Seq::<u8>::empty(),
    }
}

/// The bytes that a list of tokens is packed to: those of each token, in order.
pub open spec fn packed_tokens(tokens: Seq<Token>) -> Seq<u8>
    decreases tokens.len(),
{
    if tokens.len() == 0 {
        Seq::<u8>::empty()
    } else {
        packed_tokens(tokens.drop_last()) + packed_token(tokens.last())
    }
}

/// Appends the shortest big-endian form of an integer: its 32 big-endian bytes
/// without the leading zero bytes, or one zero byte for zero.
pub fn push_minimal_uint(value: &Uint256, output: &mut Vec<u8>)
    ensures
        final(output)@ == old(output)@ + minimal_be_bytes(value@),
{
    let buffer = value.to_big_endian();
    let mut start: usize = 0;
    while start < 32 && buffer[start] == 0
        invariant
            start <= 32,
            forall|j: int| 0 <= j < start ==> buffer@[j] == 0,
        decreases 32 - start,
    {
        start += 1;
    }
    proof {
        value.lemma_bounded();
        lemma_pow256_values();
        lemma_be_value_of_be_bytes(value@, 32);
        lemma_be_value_skip_zeros(buffer@, start as int);
    }
    if start == 32 {
        output.push(0);
        proof {
            assert(buffer@.skip(32).len() == 0);
            assert(value@ == 0);
            reveal_with_fuel(be_bytes, 2);
            assert(minimal_be_bytes(0) =~= seq![0u8]);
            assert(output@ =~= old(output)@ + minimal_be_bytes(value@));
        }
    } else {
        let tail = slice_subrange(buffer.as_slice(), start, 32);
        output.extend_from_slice(tail);
        proof {
            let t = buffer@.skip(start as int);
            assert(tail@ =~= t);
            lemma_be_value_leading_byte(t);
            lemma_be_value_bound(t);
            lemma_byte_len_exact(value@, t.len());
            lemma_be_bytes_of_be_value(t);
            assert(output@ =~= old(output)@ + minimal_be_bytes(value@));
        }
    }
}

/// Packs a list of tokens: addresses and byte strings as they are, integers in
/// the shortest big-endian form. The first token of another kind is reported
/// with its place, and nothing is packed.
pub fn encode_packed(tokens: &[Token]) -> (r: Result<Vec<u8>, UnsupportedToken>)
    ensures
        match r {
            Ok(bytes) => {
                &&& forall|i: int| 0 <= i < tokens@.len() ==> !(tokens@[i] is Other)
                &&& bytes@ == packed_tokens(tokens@)
            },
            Err(e) => {
                &&& e.index < tokens@.len()
                &&& tokens@[e.index as int] is Other
                &&& forall|i: int| 0 <= i < e.index ==> !(tokens@[i] is Other)
            },
        },
{
    let mut result: Vec<u8> = Vec::new();
    let n = tokens.len();
    let mut i: usize = 0;
    assert(tokens@.take(0).len() == 0);
    while i < n
        invariant
            n == tokens@.len(),
            i <= n,
            forall|j: int| 0 <= j < i ==> !(tokens@[j] is Other),
            result@ == packed_tokens(tokens@.take(i as int)),
        decreases n - i,
    {
        let ghost before = result@;
        match &tokens[i] {
            Token::Address(addr) => {
                result.extend_from_slice(addr.as_slice());
                assert(result@ =~= before + addr@);
            },
            Token::Uint(value) => {
                push_minimal_uint(value, &mut result);
            },
            Token::Bytes(bytes) => {
                result.extend_from_slice(bytes.as_slice());
                assert(result@ =~= before + bytes@);
            },
            Token::Other => {
                return Err(UnsupportedToken { index: i });
            },
        }
        proof {
            let next = tokens@.take(i + 1);
            assert(next.drop_last() =~= tokens@.take(i as int));
            assert(next.last() == tokens@[i as int]);
        }
        i += 1;
    }
    assert(tokens@.take(n as int) =~= tokens@);
    Ok(result)
}

} // verus!
