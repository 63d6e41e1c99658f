//! Laws relating padding and unpadding.

use vstd::prelude::*;
use vstd::arithmetic::div_mod::lemma_fundamental_div_mod;
use crate::padding::TxPadding;
use crate::spec::{
    decoded_pad_len, has_zero_tail, is_padding_of, is_unpaddable, lemma_header_decodes,
    lemma_pad_arith, pad_len, padded_len, padded_message, unpadded, zeros,
};

verus! {

/// The header byte of a padded message encodes the pad length in its low
/// bits, and the message starts right after the header and `pad_len` bytes.
pub proof fn lemma_header_law(t: TxPadding, msg: Seq<u8>, padded: Seq<u8>)
    requires
        is_padding_of(t.spec_block_size(), padded, msg),
    ensures
        padded.len() > 0,
        decoded_pad_len(t.spec_block_size(), padded[0]) == pad_len(
            t.spec_block_size(),
            msg.len() as int,
        ),
        padded.subrange(
            pad_len(t.spec_block_size(), msg.len() as int) + 1,
            pad_len(t.spec_block_size(), msg.len() as int) + 1 + msg.len(),
        ) == msg,
{
    let bs = t.spec_block_size();
    let pl = pad_len(bs, msg.len() as int);
    let prefix = choose|prefix: Seq<u8>|
        prefix.len() == pl && padded == #[trigger] padded_message(bs, msg, prefix);
    lemma_pad_arith(bs, msg.len() as int);
    lemma_header_decodes(bs, pl);
    assert(padded.subrange(pl + 1, pl + 1 + msg.len()) =~= msg);
}

/// The last `block_size - 1` bytes of a padded message are zero.
pub proof fn lemma_tail_law(t: TxPadding, msg: Seq<u8>, padded: Seq<u8>)
    requires
        is_padding_of(t.spec_block_size(), padded, msg),
    ensures
        padded.len() >= t.spec_block_size() - 1,
        has_zero_tail(padded, t.spec_block_size() - 1),
{
    let bs = t.spec_block_size();
    let pl = pad_len(bs, msg.len() as int);
    let prefix = choose|prefix: Seq<u8>|
        prefix.len() == pl && padded == #[trigger] padded_message(bs, msg, prefix);
    assert forall|i: int| padded.len() - (bs - 1) <= i < padded.len() implies #[trigger] padded[i]
        == 0 by {
        assert(padded[i] == zeros(bs - 1)[i - (padded.len() - (bs - 1))]);
    }
}

/// Unpadding a padded form of a message accepts it and gives the message back.
pub proof fn lemma_round_trip(t: TxPadding, msg: Seq<u8>, padded: Seq<u8>)
    requires
        is_padding_of(t.spec_block_size(), padded, msg),
    ensures
        is_unpaddable(t.spec_block_size(), padded),
        unpadded(t.spec_block_size(), padded) == msg,
{
    let bs = t.spec_block_size();
    let pl = pad_len(bs, msg.len() as int);
    lemma_header_law(t, msg, padded);
    lemma_tail_law(t, msg, padded);
    lemma_pad_arith(bs, msg.len() as int);
    assert(padded.len() == pl + msg.len() + bs);
}

/// The padded length is `block_size * ((pos + 1) / block_size + 2)`: one
/// header byte, `pad_len` bytes, the message and `block_size - 1` zero bytes.
/// It is a multiple of the block size, and the smallest one that is at least
/// `pos + block_size + 2`, the room that the shortest prefix needs.
pub proof fn lemma_length_law(t: TxPadding, pos: nat)
    ensures
        padded_len(t.spec_block_size(), pos as int) == 1 + pad_len(t.spec_block_size(), pos as int)
            + pos + (t.spec_block_size() - 1),
        padded_len(t.spec_block_size(), pos as int) % t.spec_block_size() == 0,
        padded_len(t.spec_block_size(), pos as int) >= pos + t.spec_block_size() + 2,
        forall|m: int|
            #[trigger] (m % t.spec_block_size()) == 0 && m >= pos + t.spec_block_size() + 2 ==> padded_len(
                t.spec_block_size(),
                pos as int,
            ) <= m,
{
    let bs = t.spec_block_size();
    lemma_pad_arith(bs, pos as int);
    assert forall|m: int| #[trigger] (m % bs) == 0 && m >= pos + bs + 2 implies padded_len(bs, pos as int)
        <= m by {
        lemma_multiple_above(bs, pos as int, m);
    }
}

/// When `pos + 1` is not a multiple of the block size, the padded length is
/// the smallest multiple of the block size that is at least
/// `pos + block_size + 1`.
pub proof fn lemma_length_law_smallest(t: TxPadding, pos: nat)
    requires
        (pos + 1) as int % t.spec_block_size() != 0,
    ensures
        forall|m: int|
            #[trigger] (m % t.spec_block_size()) == 0 && m >= pos + t.spec_block_size() + 1 ==> padded_len(
                t.spec_block_size(),
                pos as int,
            ) <= m,
{
    let bs = t.spec_block_size();
    assert forall|m: int| #[trigger] (m % bs) == 0 && m >= pos + bs + 1 implies padded_len(bs, pos as int)
        <= m by {
        lemma_multiple_above(bs, pos as int, m);
    }
}

/// A multiple of `bs` above `bs * ((pos + 1) / bs + 1)` is at least the
/// padded length.
proof fn lemma_multiple_above(bs: int, pos: int, m: int)
    requires
        bs > 0,
        pos >= 0,
        m % bs == 0,
        m > bs * ((pos + 1) / bs + 1),
    ensures
        padded_len(bs, pos) <= m,
{
    let q = (pos + 1) / bs;
    let k = m / bs;
    lemma_fundamental_div_mod(m, bs);
    assert(bs * k > bs * (q + 1));
    assert(k >= q + 2) by (nonlinear_arith)
        requires
            bs > 0,
            bs * k > bs * (q + 1),
    ;
    assert(bs * k >= bs * (q + 2)) by (nonlinear_arith)
        requires
            bs > 0,
            k >= q + 2,
    ;
}

} // verus!
