//! The messages that clients and the build service exchange.

use vstd::prelude::*;

verus! {

/// A subscription request. The name is the key under which the client is registered.
#[derive(Debug, PartialEq, Eq, Default)]
pub struct ClientInfo {
    pub name: String,
}

/// A payload submitted for proof of work. Only `data` is hashed.
#[derive(Debug, PartialEq, Eq, Default)]
pub struct Block {
    pub data: Vec<u8>,
}

/// A finished proof of work.
#[derive(Debug, PartialEq, Eq, Default)]
pub struct BlockHash {
    /// Digest of the payload alone.
    pub id: Vec<u8>,
    /// Digest of the payload followed by the nonce.
    pub hash: Vec<u8>,
    pub nonce: u32,
}

/// The answer to a submission: `0` when the block was queued.
#[derive(Debug, Clone, Copy, PartialEq, Eq, Default)]
pub struct BlockStatus {
    pub code: i32,
}

/// Mathematical value of a [`BlockHash`].
pub struct BlockHashView {
    pub id: Seq<u8>,
    pub hash: Seq<u8>,
    pub nonce: u32,
}

impl View for BlockHash {
    type V = BlockHashView;

    open spec fn view(&self) -> BlockHashView {
        BlockHashView { id: self.id@, hash: self.hash@, nonce: self.nonce }
    }
}

impl DeepView for BlockHash {
    type V = BlockHashView;

    open spec fn deep_view(&self) -> BlockHashView {
        self@
    }
}

impl DeepView for Block {
    type V = Seq<u8>;

    open spec fn deep_view(&self) -> Seq<u8> {
        self@
    }
}

impl View for Block {
    type V = Seq<u8>;

    open spec fn view(&self) -> Seq<u8> {
        self.data@
    }
}

impl View for ClientInfo {
    type V = Seq<char>;

    open spec fn view(&self) -> Seq<char> {
        self.name@
    }
}

/// Copies a byte vector.
pub fn copy_bytes(bytes: &Vec<u8>) -> (out: Vec<u8>)
    ensures
        out@ == bytes@,
{
    let mut out: Vec<u8> = Vec::with_capacity(bytes.len());
    let mut i: usize = 0;
    while i < bytes.len()
        invariant
            i <= bytes.len(),
            out@ == bytes@.subrange(0, i as int),
        decreases bytes.len() - i,
    {
        out.push(bytes[i]);
        i += 1;
        assert(out@ =~= bytes@.subrange(0, i as int));
    }
    assert(bytes@.subrange(0, bytes.len() as int) =~= bytes@);
    out
}

impl Clone for BlockHash {
    fn clone(&self) -> (copy: BlockHash)
        ensures
            copy@ == self@,
    {
        BlockHash { id: copy_bytes(&self.id), hash: copy_bytes(&self.hash), nonce: self.nonce }
    }
}

impl Clone for Block {
    fn clone(&self) -> (copy: Block)
        ensures
            copy@ == self@,
    {
        Block { data: copy_bytes(&self.data) }
    }
}

impl Clone for ClientInfo {
    fn clone(&self) -> (copy: ClientInfo)
        ensures
            copy@ == self@,
    {
        ClientInfo { name: self.name.clone() }
    }
}

} // verus!
