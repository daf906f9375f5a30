use crate::error::PackError;
use crate::key::{Key, KEY_LEN};
use vstd::bytes::{
    lemma_auto_spec_u64_to_from_le_bytes,
    spec_u64_from_le_bytes,
    spec_u64_to_le_bytes,
    spec_u64_to_le_bytes_to_open,
    u64_from_le_bytes,
    u64_to_le_bytes,
};
use vstd::prelude::*;
use vstd::slice::slice_subrange;

verus! {

/// Width in bytes of a packed pool account entry.
pub const ACCOUNT_LEN: usize = 40;

/// Offset of the amount within a packed entry.
pub const AMOUNT_OFFSET: usize = 32;

/// Width in bytes of the amount.
pub const AMOUNT_LEN: usize = 8;

/// A held asset balance: the asset's mint and the quantity held.
#[derive(Clone, Copy, Debug, PartialEq, Eq)]
pub struct PoolAccount {
    pub mint_address: Key,
    pub amount: u64,
}

/// The mathematical value of an entry: the mint key's bytes and the amount.
pub struct PoolAccountView {
    pub mint_address: Seq<u8>,
    pub amount: u64,
}

impl View for PoolAccount {
    type V = PoolAccountView;

    open spec fn view(&self) -> PoolAccountView {
        PoolAccountView { mint_address: self.mint_address@, amount: self.amount }
    }
}

/// The packed form of an entry: the mint key's bytes, then the amount in
/// little-endian byte order.
pub open spec fn encode_account(a: PoolAccountView) -> Seq<u8> {
    a.mint_address + spec_u64_to_le_bytes(a.amount)
}

/// What a buffer reads as: nothing when it is shorter than an entry;
/// otherwise the mint key from its first 32 bytes and the amount read
/// little-endian from the 8 bytes after them. Bytes past the entry are not read.
pub open spec fn decode_account(s: Seq<u8>) -> Option<PoolAccountView> {
    if s.len() < ACCOUNT_LEN {
        None
    } else {
        Some(
            PoolAccountView {
                mint_address: s.subrange(0, KEY_LEN as int),
                amount: spec_u64_from_le_bytes(s.subrange(AMOUNT_OFFSET as int, ACCOUNT_LEN as int)),
            },
        )
    }
}

impl PoolAccount {
    pub const LEN: usize = ACCOUNT_LEN;

    /// Writes the packed entry over the first `ACCOUNT_LEN` bytes of `target`;
    /// the bytes after them are left as they were.
    pub fn pack_into_slice(&self, target: &mut [u8])
        requires
            old(target)@.len() >= ACCOUNT_LEN,
        ensures
            final(target)@ == encode_account(self@) + old(target)@.subrange(
                ACCOUNT_LEN as int,
                old(target)@.len() as int,
            ),
    {
        self.mint_address.write_into(target);
        let amount_bytes = u64_to_le_bytes(self.amount);
        let ghost keyed = target@;
        let mut i: usize = 0;
        while i < AMOUNT_LEN
            invariant
                i <= AMOUNT_LEN,
                old(target)@.len() >= ACCOUNT_LEN,
                amount_bytes@ == spec_u64_to_le_bytes(self.amount),
                amount_bytes@.len() == AMOUNT_LEN,
                keyed == self.mint_address@ + old(target)@.subrange(
                    KEY_LEN as int,
                    old(target)@.len() as int,
                ),
                keyed.len() >= ACCOUNT_LEN,
                target@.len() == keyed.len(),
                forall|j: int| 0 <= j < AMOUNT_OFFSET ==> target@[j] == keyed[j],
                forall|j: int|
                    0 <= j < i ==> target@[AMOUNT_OFFSET + j] == amount_bytes@[j],
                forall|j: int| AMOUNT_OFFSET + i <= j < target@.len() ==> target@[j] == keyed[j],
            decreases AMOUNT_LEN - i,
        {
            target[AMOUNT_OFFSET + i] = amount_bytes[i];
            i += 1;
        }
        let ghost packed = encode_account(self@) + old(target)@.subrange(
            ACCOUNT_LEN as int,
            old(target)@.len() as int,
        );
        proof {
            lemma_auto_spec_u64_to_from_le_bytes();
            assert forall|j: int| 0 <= j < target@.len() implies target@[j] == packed[j] by {
                if j < AMOUNT_OFFSET {
                    assert(target@[j] == keyed[j]);
                    assert(packed[j] == self.mint_address@[j]);
                } else if j < ACCOUNT_LEN {
                    let k = j - AMOUNT_OFFSET;
                    assert(target@[AMOUNT_OFFSET + k] == amount_bytes@[k]);
                    assert(packed[j] == spec_u64_to_le_bytes(self.amount)[k]);
                } else {
                    assert(target@[j] == keyed[j]);
                    assert(packed[j] == old(target)@[j]);
                }
            }
        }
        assert(target@ =~= packed);
    }

    /// Reads an entry from the first `ACCOUNT_LEN` bytes of `src`, or fails
    /// with `InvalidAccountData` when `src` is shorter than that.
    pub fn unpack_from_slice(src: &[u8]) -> (r: Result<PoolAccount, PackError>)
        ensures
            match r {
                Ok(a) => decode_account(src@) == Some(a@),
                Err(e) => decode_account(src@) is None && e == PackError::InvalidAccountData,
            },
    {
        if src.len() < ACCOUNT_LEN {
            return Err(PackError::InvalidAccountData);
        }
        let mint_address = Key::read_from(src);
        let amount = u64_from_le_bytes(slice_subrange(src, AMOUNT_OFFSET, ACCOUNT_LEN));
        Ok(PoolAccount { mint_address, amount })
    }
}

/// Decoding the packed form of an entry gives that entry back, and only that
/// entry has this view.
pub proof fn lemma_account_round_trip(a: PoolAccount, b: PoolAccount)
    ensures
        decode_account(encode_account(a@)) == Some(a@),
        decode_account(encode_account(a@)) == Some(b@) ==> b == a,
{
    lemma_auto_spec_u64_to_from_le_bytes();
    let s = encode_account(a@);
    assert(s.subrange(0, KEY_LEN as int) =~= a.mint_address@);
    assert(s.subrange(AMOUNT_OFFSET as int, ACCOUNT_LEN as int) =~= spec_u64_to_le_bytes(a.amount));
    if decode_account(s) == Some(b@) {
        Key::lemma_view_injective(b.mint_address, a.mint_address);
    }
}

/// Every entry packs to exactly `ACCOUNT_LEN` bytes.
pub proof fn lemma_account_encoded_len(a: PoolAccount)
    ensures
        encode_account(a@).len() == ACCOUNT_LEN,
{
    lemma_auto_spec_u64_to_from_le_bytes();
}

/// The amount is packed least significant byte first: 1 packs as
/// `01 00 00 00 00 00 00 00` and 256 as `00 01 00 00 00 00 00 00`.
pub proof fn lemma_account_amount_little_endian(a: PoolAccount)
    ensures
        a.amount == 1 ==> encode_account(a@) == a.mint_address@ + seq![1u8, 0, 0, 0, 0, 0, 0, 0],
        a.amount == 256 ==> encode_account(a@) == a.mint_address@ + seq![0u8, 1, 0, 0, 0, 0, 0, 0],
{
    spec_u64_to_le_bytes_to_open(1);
    spec_u64_to_le_bytes_to_open(256);
    assert(1u64 & 0xff == 1 && (1u64 >> 8) & 0xff == 0 && (1u64 >> 16) & 0xff == 0
        && (1u64 >> 24) & 0xff == 0 && (1u64 >> 32) & 0xff == 0 && (1u64 >> 40) & 0xff == 0
        && (1u64 >> 48) & 0xff == 0 && (1u64 >> 56) & 0xff == 0) by (bit_vector);
    assert(256u64 & 0xff == 0 && (256u64 >> 8) & 0xff == 1 && (256u64 >> 16) & 0xff == 0
        && (256u64 >> 24) & 0xff == 0 && (256u64 >> 32) & 0xff == 0 && (256u64 >> 40) & 0xff
        == 0 && (256u64 >> 48) & 0xff == 0 && (256u64 >> 56) & 0xff == 0) by (bit_vector);
    assert(spec_u64_to_le_bytes(1) =~= seq![1u8, 0, 0, 0, 0, 0, 0, 0]);
    assert(spec_u64_to_le_bytes(256) =~= seq![0u8, 1, 0, 0, 0, 0, 0, 0]);
}

/// A buffer shorter than `ACCOUNT_LEN` bytes reads as no entry at all.
pub proof fn lemma_account_short_input(s: Seq<u8>)
    requires
        s.len() < ACCOUNT_LEN,
    ensures
        decode_account(s) is None,
{
}

/// A buffer of at least `ACCOUNT_LEN` bytes reads as an entry, and bytes past
/// the first `ACCOUNT_LEN` do not change which one.
pub proof fn lemma_account_trailing_bytes(s: Seq<u8>)
    requires
        s.len() >= ACCOUNT_LEN,
    ensures
        decode_account(s) is Some,
        decode_account(s) == decode_account(s.subrange(0, ACCOUNT_LEN as int)),
{
    let t = s.subrange(0, ACCOUNT_LEN as int);
    assert(t.subrange(0, KEY_LEN as int) =~= s.subrange(0, KEY_LEN as int));
    assert(t.subrange(AMOUNT_OFFSET as int, ACCOUNT_LEN as int) =~= s.subrange(
        AMOUNT_OFFSET as int,
        ACCOUNT_LEN as int,
    ));
}

/// A decoded entry's mint key is exactly the buffer's first 32 bytes.
pub proof fn lemma_account_key_preserved(s: Seq<u8>)
    ensures
        decode_account(s) matches Some(v) ==> v.mint_address == s.subrange(0, KEY_LEN as int)
            && v.mint_address.len() == KEY_LEN,
{
}

} // verus!
