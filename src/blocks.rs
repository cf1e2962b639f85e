//! The block and key containers of the public interface. Each keeps its
//! contents in a `GenericArray` and converts to and from a plain array.

use vstd::prelude::*;

use cipher::consts::{U10, U4};
use generic_array::GenericArray;

verus! {

/// A block of four 16-bit words. Its `GenericArray` storage is opaque to
/// the verifier: `block_words` names what it holds.
#[verifier::external_body]
pub struct Block {
    words: GenericArray<u16, U4>,
}

/// An 80-bit key of ten bytes. Its `GenericArray` storage is opaque to the
/// verifier: `key_bytes` names what it holds.
#[verifier::external_body]
pub struct SkipjackKey {
    bytes: GenericArray<u8, U10>,
}

/// The four words that a block holds, in order.
pub uninterp spec fn block_words(b: Block) -> Seq<u16>;

/// The ten bytes that a key holds, in order.
pub uninterp spec fn key_bytes(k: SkipjackKey) -> Seq<u8>;

impl Block {
    /// Relies on generic_array's `From<[T; 4]>` for `GenericArray<T, U4>`:
    /// the block holds the array's words in order.
    #[verifier::external_body]
    pub(crate) fn from_array(a: [u16; 4]) -> (r: Block)
        ensures
            block_words(r) == a@,
    {
        Block { words: GenericArray::from(a) }
    }

    /// Relies on generic_array's `AsRef<[T; 4]>` for `GenericArray<T, U4>`,
    /// which views the storage as an array of the four words.
    #[verifier::external_body]
    pub(crate) fn as_array(&self) -> (r: [u16; 4])
        ensures
            r@ == block_words(*self),
    {
        *AsRef::<[u16; 4]>::as_ref(&self.words)
    }

    /// The four words of the block, in order.
    pub fn to_words(&self) -> (r: [u16; 4])
        ensures
            r@ == block_words(*self),
    {
        self.as_array()
    }
}

impl SkipjackKey {
    /// Relies on generic_array's `From<[T; 10]>` for `GenericArray<T, U10>`:
    /// the key holds the array's bytes in order.
    #[verifier::external_body]
    pub(crate) fn from_array(a: [u8; 10]) -> (r: SkipjackKey)
        ensures
            key_bytes(r) == a@,
    {
        SkipjackKey { bytes: GenericArray::from(a) }
    }

    /// Relies on generic_array's `AsRef<[T; 10]>` for `GenericArray<T, U10>`,
    /// which views the storage as an array of the ten bytes.
    #[verifier::external_body]
    pub(crate) fn as_array(&self) -> (r: [u8; 10])
        ensures
            r@ == key_bytes(*self),
    {
        *AsRef::<[u8; 10]>::as_ref(&self.bytes)
    }

    /// The ten bytes of the key, in order.
    pub fn to_bytes(&self) -> (r: [u8; 10])
        ensures
            r@ == key_bytes(*self),
    {
        self.as_array()
    }
}

impl Clone for Block {
    fn clone(&self) -> (r: Block) {
        Block::from_array(self.as_array())
    }
}

impl Clone for SkipjackKey {
    fn clone(&self) -> (r: SkipjackKey) {
        SkipjackKey::from_array(self.as_array())
    }
}

impl From<[u16; 4]> for Block {
    fn from(a: [u16; 4]) -> (r: Block) {
        Block::from_array(a)
    }
}

impl vstd::std_specs::convert::FromSpecImpl<[u16; 4]> for Block {
    open spec fn obeys_from_spec() -> bool {
        false
    }

    open spec fn from_spec(a: [u16; 4]) -> Block {
        arbitrary()
    }
}

impl From<[u8; 10]> for SkipjackKey {
    fn from(a: [u8; 10]) -> (r: SkipjackKey) {
        SkipjackKey::from_array(a)
    }
}

impl vstd::std_specs::convert::FromSpecImpl<[u8; 10]> for SkipjackKey {
    open spec fn obeys_from_spec() -> bool {
        false
    }

    open spec fn from_spec(a: [u8; 10]) -> SkipjackKey {
        arbitrary()
    }
}

} // verus!
