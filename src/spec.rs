//! The mathematical model of the padding scheme.

use vstd::prelude::*;
use vstd::arithmetic::div_mod::{
    lemma_fundamental_div_mod,
    lemma_fundamental_div_mod_converse,
    lemma_mod_multiples_basic,
};

verus! {

/// The block sizes the scheme supports: the powers of two from 2 to 256.
pub open spec fn is_block_size(n: int) -> bool {
    ||| n == 2
    ||| n == 4
    ||| n == 8
    ||| n == 16
    ||| n == 32
    ||| n == 64
    ||| n == 128
    ||| n == 256
}

/// Number of random bytes between the header byte and a message of `pos` bytes.
pub open spec fn pad_len(bs: int, pos: int) -> int {
    (-(pos + 2)) % bs + 2
}

/// Total length of the padded form of a message of `pos` bytes.
pub open spec fn padded_len(bs: int, pos: int) -> int {
    bs * ((pos + 1) / bs + 2)
}

/// The header byte: the complement of `bs - 1` in the high bits, `pl - 2` in
/// the low bits.
pub open spec fn header_byte(bs: int, pl: int) -> u8 {
    !((bs - 1) as u8) | ((pl - 2) as u8)
}

/// `n` zero bytes.
pub open spec fn zeros(n: int) -> Seq<u8> {
    Seq::new(n as nat, |i: int| 0u8)
}

/// The padded form of `msg` when `prefix` supplies the bytes after the header.
pub open spec fn padded_message(bs: int, msg: Seq<u8>, prefix: Seq<u8>) -> Seq<u8> {
    seq![header_byte(bs, pad_len(bs, msg.len() as int))] + prefix + msg + zeros(bs - 1)
}

/// `padded` is a padded form of `msg`, whatever bytes were drawn for its prefix.
pub open spec fn is_padding_of(bs: int, padded: Seq<u8>, msg: Seq<u8>) -> bool {
    exists|prefix: Seq<u8>|
        prefix.len() == pad_len(bs, msg.len() as int) && padded == #[trigger] padded_message(
            bs,
            msg,
            prefix,
        )
}

/// The pad length that the low bits of a header byte encode.
pub open spec fn decoded_pad_len(bs: int, b0: u8) -> int {
    (b0 & ((bs - 1) as u8)) as int + 2
}

/// The last `n` bytes of `data` are all zero.
pub open spec fn has_zero_tail(data: Seq<u8>, n: int) -> bool {
    forall|i: int| data.len() - n <= i < data.len() ==> #[trigger] data[i] == 0
}

/// Whether `data` is accepted by unpadding.
pub open spec fn is_unpaddable(bs: int, data: Seq<u8>) -> bool {
    &&& data.len() > 0
    &&& data.len() >= decoded_pad_len(bs, data[0]) + bs
    &&& has_zero_tail(data, bs - 1)
}

/// The message that unpadding recovers from accepted `data`.
pub open spec fn unpadded(bs: int, data: Seq<u8>) -> Seq<u8> {
    data.subrange(decoded_pad_len(bs, data[0]) + 1, data.len() - (bs - 1))
}

/// How the pad length, the block size and the padded length relate.
pub proof fn lemma_pad_arith(bs: int, pos: int)
    requires
        bs > 0,
        pos >= 0,
    ensures
        2 <= pad_len(bs, pos) <= bs + 1,
        padded_len(bs, pos) == pos + pad_len(bs, pos) + bs,
        padded_len(bs, pos) % bs == 0,
{
    let q = (pos + 1) / bs;
    let r = (pos + 1) % bs;
    lemma_fundamental_div_mod(pos + 1, bs);
    assert(bs * q == q * bs) by (nonlinear_arith);
    assert((-(q + 1)) * bs == -(q * bs) - bs) by (nonlinear_arith);
    if r + 1 == bs {
        lemma_fundamental_div_mod_converse(-(pos + 2), bs, -(q + 1), 0);
    } else {
        lemma_fundamental_div_mod_converse(-(pos + 2), bs, -(q + 1), bs - r - 1);
    }
    assert(bs * (q + 2) == q * bs + 2 * bs) by (nonlinear_arith);
    assert(bs * (q + 2) == (q + 2) * bs) by (nonlinear_arith);
    lemma_mod_multiples_basic(q + 2, bs);
}

/// In a header byte of a supported block size, the low bits give back the
/// pad length written there.
pub proof fn lemma_header_decodes(bs: int, pl: int)
    requires
        is_block_size(bs),
        2 <= pl <= bs + 1,
    ensures
        decoded_pad_len(bs, header_byte(bs, pl)) == pl,
{
    let m = (bs - 1) as u8;
    let x = (pl - 2) as u8;
    assert(x <= m);
    assert(((!m | x) & m) == x) by (bit_vector)
        requires
            m == 1 || m == 3 || m == 7 || m == 15 || m == 31 || m == 63 || m == 127 || m == 255,
            x <= m,
    ;
}

} // verus!
