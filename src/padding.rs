//! The padding transform.

use vstd::prelude::*;
use crate::os_random::fill_from_os;
use crate::spec::{
    has_zero_tail, header_byte, is_block_size, is_padding_of, is_unpaddable, lemma_header_decodes,
    lemma_pad_arith, pad_len, padded_len, padded_message, unpadded,
};

verus! {

/// Marker error: padding could not be performed.
#[derive(Clone, Copy, Debug, PartialEq, Eq, Structural)]
pub struct PadError;

/// Marker error: the input is not a well-formed padded message.
#[derive(Clone, Copy, Debug, PartialEq, Eq, Structural)]
pub struct UnpadError;

/// The padding scheme for one block size, chosen among the supported ones.
#[derive(Clone, Copy, Debug, PartialEq, Eq, Structural)]
pub enum TxPadding {
    U2,
    U4,
    U8,
    U16,
    U32,
    U64,
    U128,
    U256,
}

impl TxPadding {
    /// The block size of this scheme, in the model.
    pub open spec fn spec_block_size(self) -> int {
        match self {
            TxPadding::U2 => 2,
            TxPadding::U4 => 4,
            TxPadding::U8 => 8,
            TxPadding::U16 => 16,
            TxPadding::U32 => 32,
            TxPadding::U64 => 64,
            TxPadding::U128 => 128,
            TxPadding::U256 => 256,
        }
    }

    /// The block size of this scheme.
    pub fn block_size(&self) -> (r: usize)
        ensures
            r == self.spec_block_size(),
            is_block_size(r as int),
    {
        match self {
            TxPadding::U2 => 2,
            TxPadding::U4 => 4,
            TxPadding::U8 => 8,
            TxPadding::U16 => 16,
            TxPadding::U32 => 32,
            TxPadding::U64 => 64,
            TxPadding::U128 => 128,
            TxPadding::U256 => 256,
        }
    }

    /// The scheme for block size `n`, if `n` is a supported block size.
    pub fn from_block_size(n: usize) -> (r: Option<TxPadding>)
        ensures
            r is Some <==> is_block_size(n as int),
            r matches Some(t) ==> t.spec_block_size() == n,
    {
        match n {
            2 => Some(TxPadding::U2),
            4 => Some(TxPadding::U4),
            8 => Some(TxPadding::U8),
            16 => Some(TxPadding::U16),
            32 => Some(TxPadding::U32),
            64 => Some(TxPadding::U64),
            128 => Some(TxPadding::U128),
            256 => Some(TxPadding::U256),
            _ => None,
        }
    }

    /// Pads the `pos`-byte message at the start of `buf` in place, taking the
    /// bytes that follow the header from the front of `prefix`.
    ///
    /// Fails, leaving `buf` untouched, when `block_size` is not this scheme's
    /// block size or `buf` is shorter than the padded length. Otherwise returns
    /// the padded length `n`: `buf[..n]` is the padded message and the bytes
    /// after it are left as they were.
    pub fn pad_with_prefix(&self, buf: &mut [u8], pos: usize, block_size: usize, prefix: &[u8]) -> (r:
        Result<usize, PadError>)
        requires
            prefix@.len() >= pad_len(self.spec_block_size(), pos as int),
        ensures
            r is Ok <==> block_size == self.spec_block_size() && padded_len(
                self.spec_block_size(),
                pos as int,
            ) <= old(buf)@.len(),
            r is Err ==> final(buf)@ == old(buf)@,
            r matches Ok(n) ==> {
                &&& n == padded_len(self.spec_block_size(), pos as int)
                &&& final(buf)@.len() == old(buf)@.len()
                &&& final(buf)@.take(n as int) == padded_message(
                    self.spec_block_size(),
                    old(buf)@.take(pos as int),
                    prefix@.take(pad_len(self.spec_block_size(), pos as int)),
                )
                &&& final(buf)@.skip(n as int) == old(buf)@.skip(n as int)
            },
    {
        let bs = self.block_size();
        if block_size != bs {
            return Err(PadError);
        }
        let n = match padded_len_within(bs, pos, buf.len()) {
            Some(n) => n,
            None => return Err(PadError),
        };
        proof {
            lemma_pad_arith(bs as int, pos as int);
        }
        let pl = n - pos - bs;
        // Move the message up to its place, last byte first, so that no byte
        // is overwritten before it has been read.
        let mut i: usize = pos;
        while i > 0
            invariant
                i <= pos,
                pos + pl + bs == n,
                2 <= bs,
                n <= buf@.len(),
                buf@.len() == old(buf)@.len(),
                forall|j: int| 0 <= j < i ==> buf@[j] == old(buf)@[j],
                forall|k: int| i <= k < pos ==> buf@[1 + pl + k] == old(buf)@[k],
                forall|j: int| n <= j < buf@.len() ==> buf@[j] == old(buf)@[j],
            decreases i,
        {
            i = i - 1;
            let b = buf[i];
            buf[1 + pl + i] = b;
        }
        let mut k: usize = 0;
        while k < pl
            invariant
                k <= pl,
                pl <= prefix@.len(),
                pos + pl + bs == n,
                2 <= bs,
                n <= buf@.len(),
                buf@.len() == old(buf)@.len(),
                forall|j: int| 0 <= j < k ==> buf@[1 + j] == prefix@[j],
                forall|j: int| 0 <= j < pos ==> buf@[1 + pl + j] == old(buf)@[j],
                forall|j: int| n <= j < buf@.len() ==> buf@[j] == old(buf)@[j],
            decreases pl - k,
        {
            buf[1 + k] = prefix[k];
            k = k + 1;
        }
        buf[0] = !((bs - 1) as u8) | ((pl - 2) as u8);
        let mut t: usize = n - (bs - 1);
        while t < n
            invariant
                n - (bs - 1) <= t <= n,
                pl <= prefix@.len(),
                pos + pl + bs == n,
                2 <= bs,
                n <= buf@.len(),
                buf@.len() == old(buf)@.len(),
                buf@[0] == header_byte(bs as int, pl as int),
                forall|j: int| 0 <= j < pl ==> buf@[1 + j] == prefix@[j],
                forall|j: int| 0 <= j < pos ==> buf@[1 + pl + j] == old(buf)@[j],
                forall|j: int| n - (bs - 1) <= j < t ==> buf@[j] == 0,
                forall|j: int| n <= j < buf@.len() ==> buf@[j] == old(buf)@[j],
            decreases n - t,
        {
            buf[t] = 0;
            t = t + 1;
        }
        assert(buf@.take(n as int) =~= padded_message(
            bs as int,
            old(buf)@.take(pos as int),
            prefix@.take(pl as int),
        ));
        assert(buf@.skip(n as int) =~= old(buf)@.skip(n as int));
        Ok(n)
    }

    /// Pads the `pos`-byte message at the start of `buf` in place, with bytes
    /// from the operating system's random source after the header.
    ///
    /// Fails when `block_size` is not this scheme's block size, when `buf` is
    /// shorter than the padded length, or when the random source fails; the
    /// bytes are drawn before `buf` is touched, so on failure `buf` is left as
    /// it was. Otherwise returns the padded length `n`: `buf[..n]` is a padded
    /// form of the message and the bytes after it are left as they were.
    pub fn pad(&self, buf: &mut [u8], pos: usize, block_size: usize) -> (r: Result<usize, PadError>)
        ensures
            block_size != self.spec_block_size() ==> r is Err,
            padded_len(self.spec_block_size(), pos as int) > old(buf)@.len() ==> r is Err,
            r is Err ==> final(buf)@ == old(buf)@,
            r matches Ok(n) ==> {
                &&& n == padded_len(self.spec_block_size(), pos as int)
                &&& final(buf)@.len() == old(buf)@.len()
                &&& is_padding_of(
                    self.spec_block_size(),
                    final(buf)@.take(n as int),
                    old(buf)@.take(pos as int),
                )
                &&& final(buf)@.skip(n as int) == old(buf)@.skip(n as int)
            },
    {
        let bs = self.block_size();
        if block_size != bs {
            return Err(PadError);
        }
        let n = match padded_len_within(bs, pos, buf.len()) {
            Some(n) => n,
            None => return Err(PadError),
        };
        proof {
            lemma_pad_arith(bs as int, pos as int);
        }
        let pl = n - pos - bs;
        let mut prefix: Vec<u8> = vec![0u8; pl];
        match fill_from_os(&mut prefix) {
            Ok(()) => {},
            Err(_) => return Err(PadError),
        }
        let r = self.pad_with_prefix(buf, pos, block_size, prefix.as_slice());
        proof {
            if let Ok(m) = r {
                let p = prefix@.take(pl as int);
                assert(p =~= prefix@);
                assert(p.len() == pad_len(bs as int, pos as int));
            }
        }
        r
    }

    /// Recovers the message from a padded message.
    ///
    /// Fails when `data` is empty, shorter than the pad length its header
    /// byte encodes plus the block size, or when any of its last
    /// `block_size - 1` bytes is not zero. Only the low bits of the header
    /// byte are read.
    pub fn unpad<'a>(&self, data: &'a [u8]) -> (r: Result<&'a [u8], UnpadError>)
        ensures
            r is Ok <==> is_unpaddable(self.spec_block_size(), data@),
            r matches Ok(m) ==> m@ == unpadded(self.spec_block_size(), data@),
    {
        if data.len() == 0 {
            return Err(UnpadError);
        }
        let l = data.len();
        let bs = self.block_size();
        let pad_zero = bs - 1;
        let pl = (data[0] & (pad_zero as u8)) as usize + 2;
        if l < pl + bs {
            return Err(UnpadError);
        }
        let mut i: usize = l - pad_zero;
        while i < l
            invariant
                l == data@.len(),
                pad_zero == self.spec_block_size() - 1,
                l - pad_zero <= i <= l,
                forall|j: int| l - pad_zero <= j < i ==> data@[j] == 0,
            decreases l - i,
        {
            if data[i] != 0 {
                assert(!has_zero_tail(data@, pad_zero as int));
                return Err(UnpadError);
            }
            i = i + 1;
        }
        Ok(&data[1 + pl..l - pad_zero])
    }

    /// Padding one block in place is not supported: the scheme needs the
    /// length of the whole message. Always fails and leaves `block` as it was.
    pub fn pad_block(&self, block: &mut [u8], pos: usize) -> (r: Result<(), PadError>)
        ensures
            r == Err::<(), PadError>(PadError),
            final(block)@ == old(block)@,
    {
        Err(PadError)
    }
}

/// The padded length of a `pos`-byte message, when it is at most `cap`.
fn padded_len_within(bs: usize, pos: usize, cap: usize) -> (r: Option<usize>)
    requires
        is_block_size(bs as int),
    ensures
        r is Some <==> padded_len(bs as int, pos as int) <= cap,
        r matches Some(n) ==> n == padded_len(bs as int, pos as int),
{
    proof {
        lemma_pad_arith(bs as int, pos as int);
    }
    if pos >= cap {
        return None;
    }
    let q = (pos + 1) / bs + 2;
    match bs.checked_mul(q) {
        Some(n) => if n <= cap {
            Some(n)
        } else {
            None
        },
        None => None,
    }
}

} // verus!
