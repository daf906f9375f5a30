use crate::error::PackError;
use crate::key::{Key, KEY_LEN};
use vstd::prelude::*;

verus! {

/// Width in bytes of a packed pool header.
pub const HEADER_LEN: usize = 33;

/// Offset of the initialization flag within a packed header.
pub const FLAG_OFFSET: usize = 32;

/// The pool's controlling authority and whether the pool has been set up.
#[derive(Clone, Copy, Debug, PartialEq, Eq)]
pub struct PoolHeader {
    pub signal_provider: Key,
    pub is_initialized: bool,
}

/// The mathematical value of a pool header: the key's bytes and the flag.
pub struct PoolHeaderView {
    pub signal_provider: Seq<u8>,
    pub is_initialized: bool,
}

impl View for PoolHeader {
    type V = PoolHeaderView;

    open spec fn view(&self) -> PoolHeaderView {
        PoolHeaderView { signal_provider: self.signal_provider@, is_initialized: self.is_initialized }
    }
}

/// The byte that stands for the initialization flag.
pub open spec fn flag_byte(b: bool) -> u8 {
    if b { 1u8 } else { 0u8 }
}

/// The packed form of a header: the key's bytes, then the flag byte.
pub open spec fn encode_header(h: PoolHeaderView) -> Seq<u8> {
    h.signal_provider + seq![flag_byte(h.is_initialized)]
}

/// What a buffer reads as: nothing when it is shorter than a header;
/// otherwise the key from its first 32 bytes, initialized exactly when the
/// flag byte is 1. Bytes past the header are not read.
pub open spec fn decode_header(s: Seq<u8>) -> Option<PoolHeaderView> {
    if s.len() < HEADER_LEN {
        None
    } else {
        Some(
            PoolHeaderView {
                signal_provider: s.subrange(0, KEY_LEN as int),
                is_initialized: s[FLAG_OFFSET as int] == 1,
            },
        )
    }
}

impl PoolHeader {
    pub const LEN: usize = HEADER_LEN;

    pub fn is_initialized(&self) -> (r: bool)
        ensures
            r == self.is_initialized,
    {
        self.is_initialized
    }

    /// Writes the packed header over the first `HEADER_LEN` bytes of `target`;
    /// the bytes after them are left as they were.
    pub fn pack_into_slice(&self, target: &mut [u8])
        requires
            old(target)@.len() >= HEADER_LEN,
        ensures
            final(target)@ == encode_header(self@) + old(target)@.subrange(
                HEADER_LEN as int,
                old(target)@.len() as int,
            ),
    {
        self.signal_provider.write_into(target);
        target[FLAG_OFFSET] = if self.is_initialized { 1u8 } else { 0u8 };
        assert(target@ =~= encode_header(self@) + old(target)@.subrange(
            HEADER_LEN as int,
            old(target)@.len() as int,
        ));
    }

    /// Reads a header from the first `HEADER_LEN` bytes of `src`, or fails
    /// with `InvalidAccountData` when `src` is shorter than that.
    pub fn unpack_from_slice(src: &[u8]) -> (r: Result<PoolHeader, PackError>)
        ensures
            match r {
                Ok(h) => decode_header(src@) == Some(h@),
                Err(e) => decode_header(src@) is None && e == PackError::InvalidAccountData,
            },
    {
        if src.len() < HEADER_LEN {
            return Err(PackError::InvalidAccountData);
        }
        let signal_provider = Key::read_from(src);
        let is_initialized = src[FLAG_OFFSET] == 1;
        Ok(PoolHeader { signal_provider, is_initialized })
    }
}

/// Decoding the packed form of a header gives that header back, and only that
/// header has this view.
pub proof fn lemma_header_round_trip(h: PoolHeader, g: PoolHeader)
    ensures
        decode_header(encode_header(h@)) == Some(h@),
        decode_header(encode_header(h@)) == Some(g@) ==> g == h,
{
    let s = encode_header(h@);
    assert(s.subrange(0, KEY_LEN as int) =~= h.signal_provider@);
    if decode_header(s) == Some(g@) {
        Key::lemma_view_injective(g.signal_provider, h.signal_provider);
    }
}

/// Every header packs to exactly `HEADER_LEN` bytes.
pub proof fn lemma_header_encoded_len(h: PoolHeader)
    ensures
        encode_header(h@).len() == HEADER_LEN,
{
}

/// A packed header is its key followed by `0x01` when initialized and by
/// `0x00` when not.
pub proof fn lemma_header_bytes(h: PoolHeader)
    ensures
        h.is_initialized ==> encode_header(h@) == h.signal_provider@ + seq![1u8],
        !h.is_initialized ==> encode_header(h@) == h.signal_provider@ + seq![0u8],
{
}

/// A buffer shorter than `HEADER_LEN` bytes reads as no header at all.
pub proof fn lemma_header_short_input(s: Seq<u8>)
    requires
        s.len() < HEADER_LEN,
    ensures
        decode_header(s) is None,
{
}

/// A buffer of at least `HEADER_LEN` bytes reads as a header, and bytes past
/// the first `HEADER_LEN` do not change which one.
pub proof fn lemma_header_trailing_bytes(s: Seq<u8>)
    requires
        s.len() >= HEADER_LEN,
    ensures
        decode_header(s) is Some,
        decode_header(s) == decode_header(s.subrange(0, HEADER_LEN as int)),
{
    let t = s.subrange(0, HEADER_LEN as int);
    assert(t.subrange(0, KEY_LEN as int) =~= s.subrange(0, KEY_LEN as int));
}

/// A decoded header's key is exactly the buffer's first 32 bytes.
pub proof fn lemma_header_key_preserved(s: Seq<u8>)
    ensures
        decode_header(s) matches Some(v) ==> v.signal_provider == s.subrange(0, KEY_LEN as int)
            && v.signal_provider.len() == KEY_LEN,
{
}

} // verus!
