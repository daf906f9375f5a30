use vstd::prelude::*;

verus! {

/// Width in bytes of an identity key.
pub const KEY_LEN: usize = 32;

/// An opaque 32-byte identity key (an account address or an asset's mint).
#[derive(Clone, Copy, Debug, PartialEq, Eq)]
pub struct Key {
    pub bytes: [u8; 32],
}

impl View for Key {
    type V = Seq<u8>;

    open spec fn view(&self) -> Seq<u8> {
        self.bytes@
    }
}

impl Key {
    /// Two keys with the same bytes are the same key.
    pub proof fn lemma_view_injective(a: Key, b: Key)
        ensures
            a@ == b@ ==> a == b,
    {
        if a@ == b@ {
            assert(a.bytes =~= b.bytes);
        }
    }

    pub fn new_from_array(bytes: [u8; 32]) -> (r: Key)
        ensures
            r.bytes == bytes,
    {
        Key { bytes }
    }

    pub fn to_bytes(self) -> (r: [u8; 32])
        ensures
            r == self.bytes,
    {
        self.bytes
    }

    /// Reads a key from the first `KEY_LEN` bytes of `src`.
    pub fn read_from(src: &[u8]) -> (r: Key)
        requires
            src@.len() >= KEY_LEN,
        ensures
            r@ == src@.subrange(0, KEY_LEN as int),
    {
        let mut bytes = [0u8; 32];
        let mut i: usize = 0;
        while i < KEY_LEN
            invariant
                i <= KEY_LEN,
                src@.len() >= KEY_LEN,
                bytes@.len() == KEY_LEN,
                forall|j: int| 0 <= j < i ==> bytes@[j] == src@[j],
            decreases KEY_LEN - i,
        {
            bytes[i] = src[i];
            i += 1;
        }
        assert(bytes@ =~= src@.subrange(0, KEY_LEN as int));
        Key { bytes }
    }

    /// Writes the key's bytes over the first `KEY_LEN` bytes of `target`,
    /// leaving the rest of it as it was.
    pub fn write_into(&self, target: &mut [u8])
        requires
            old(target)@.len() >= KEY_LEN,
        ensures
            final(target)@ == self@ + old(target)@.subrange(KEY_LEN as int, old(target)@.len() as int),
    {
        let mut i: usize = 0;
        while i < KEY_LEN
            invariant
                i <= KEY_LEN,
                old(target)@.len() >= KEY_LEN,
                target@.len() == old(target)@.len(),
                self@.len() == KEY_LEN,
                forall|j: int| 0 <= j < i ==> target@[j] == self@[j],
                forall|j: int| i <= j < target@.len() ==> target@[j] == old(target)@[j],
            decreases KEY_LEN - i,
        {
            target[i] = self.bytes[i];
            i += 1;
        }
        assert(target@ =~= self@ + old(target)@.subrange(KEY_LEN as int, old(target)@.len() as int));
    }
}

} // verus!
