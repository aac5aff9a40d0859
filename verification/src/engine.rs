//! The proof-of-work engine: hashing a payload once, then searching the nonce space for a
//! digest with the demanded number of leading zero bytes.

use crate::proto::{Block, BlockHash};
use rayon::iter::{IntoParallelIterator, ParallelIterator};
use vstd::prelude::*;

verus! {

/// Number of leading zero bytes a digest has to show.
pub const PREFIX_ZERO_NUM: usize = 3;

/// Length of every digest in bytes.
pub const DIGEST_LEN: usize = 32;

/// `blake3::Hasher`, the incremental hash state. Nothing inside it is visible here: what
/// it has absorbed and where it sits are named below.
#[verifier::external_type_specification]
#[verifier::external_body]
pub struct ExHasher(blake3::Hasher);

/// The 32-byte BLAKE3 digest of `input`, as `blake3::hash` computes it and as
/// `blake3::Hasher::finalize` computes it of everything that a hasher made by
/// `blake3::Hasher::new` has absorbed.
pub uninterp spec fn blake3_output(input: Seq<u8>) -> Seq<u8>;

/// The bytes that a `blake3::Hasher` has absorbed since it was made.
pub uninterp spec fn absorbed(hasher: blake3::Hasher) -> Seq<u8>;

/// The input offset of a `blake3::Hasher`: zero unless it was moved by hand.
pub uninterp spec fn input_offset(hasher: blake3::Hasher) -> nat;

/// Whether a `blake3::Hasher` computes the regular hash function: it was made by
/// `blake3::Hasher::new`, and not with a key or for the derivation of a key.
pub uninterp spec fn is_regular(hasher: blake3::Hasher) -> bool;

/// `blake3::hash`: the digest of the whole input, 32 bytes long.
#[verifier::external_body]
fn digest_of(input: &[u8]) -> (out: Vec<u8>)
    ensures
        out@ == blake3_output(input@),
        out@.len() == DIGEST_LEN,
{
    blake3::hash(input).as_bytes().to_vec()
}

/// `blake3::Hasher::new`: a hasher for the regular hash function that has absorbed
/// nothing and sits at offset zero.
#[verifier::external_body]
fn hasher_new() -> (hasher: blake3::Hasher)
    ensures
        absorbed(hasher) == Seq::<u8>::empty(),
        input_offset(hasher) == 0,
        is_regular(hasher),
{
    blake3::Hasher::new()
}

/// `blake3::Hasher::update`: the input is appended to what was absorbed before; the
/// offset and the hash function stay. On a hasher whose offset was moved it panics for
/// an input beyond the end of the subtree, so the precondition leaves moved hashers out.
#[verifier::external_body]
fn hasher_update(hasher: &mut blake3::Hasher, input: &[u8])
    requires
        input_offset(*old(hasher)) == 0,
    ensures
        absorbed(*final(hasher)) == absorbed(*old(hasher)) + input@,
        input_offset(*final(hasher)) == input_offset(*old(hasher)),
        is_regular(*final(hasher)) == is_regular(*old(hasher)),
{
    hasher.update(input);
}

/// `Clone::clone` of `blake3::Hasher`: the copy has absorbed the same bytes at the same
/// offset, for the same hash function.
#[verifier::external_body]
fn hasher_clone(hasher: &blake3::Hasher) -> (copy: blake3::Hasher)
    ensures
        absorbed(copy) == absorbed(*hasher),
        input_offset(copy) == input_offset(*hasher),
        is_regular(copy) == is_regular(*hasher),
{
    hasher.clone()
}

/// `blake3::Hasher::finalize` of a hasher for the regular hash function: the digest of
/// everything absorbed, 32 bytes long. It panics on a hasher whose offset was moved,
/// and a hasher with a key gives another digest: the precondition leaves both out.
#[verifier::external_body]
fn hasher_finalize(hasher: &blake3::Hasher) -> (out: Vec<u8>)
    requires
        input_offset(*hasher) == 0,
        is_regular(*hasher),
    ensures
        out@ == blake3_output(absorbed(*hasher)),
        out@.len() == DIGEST_LEN,
{
    hasher.finalize().as_bytes().to_vec()
}

/// A resumable hash state: everything hashed so far, ready to be extended.
pub struct HashState {
    hasher: blake3::Hasher,
}

impl View for HashState {
    type V = Seq<u8>;

    /// The bytes absorbed so far.
    closed spec fn view(&self) -> Seq<u8> {
        absorbed(self.hasher)
    }
}

impl HashState {
    #[verifier::type_invariant]
    spec fn rooted(&self) -> bool {
        input_offset(self.hasher) == 0 && is_regular(self.hasher)
    }
}

impl Clone for HashState {
    fn clone(&self) -> (copy: HashState)
        ensures
            copy@ == self@,
    {
        proof {
            use_type_invariant(self);
        }
        HashState { hasher: hasher_clone(&self.hasher) }
    }
}

/// The four bytes of `nonce`, most significant first.
pub open spec fn be_bytes(nonce: u32) -> Seq<u8> {
    seq![
        (nonce >> 24u32) as u8,
        ((nonce >> 16u32) & 0xffu32) as u8,
        ((nonce >> 8u32) & 0xffu32) as u8,
        (nonce & 0xffu32) as u8,
    ]
}

/// The digest of a payload alone: the stable content address of a block.
pub open spec fn spec_digest(payload: Seq<u8>) -> Seq<u8> {
    blake3_output(payload)
}

/// The digest of what was absorbed followed by the big-endian nonce.
pub open spec fn spec_extend(absorbed: Seq<u8>, nonce: u32) -> Seq<u8> {
    blake3_output(absorbed + be_bytes(nonce))
}

/// Whether the first `difficulty` bytes of `hash` exist and are all zero.
pub open spec fn meets_difficulty(hash: Seq<u8>, difficulty: nat) -> bool {
    &&& difficulty <= hash.len()
    &&& forall|i: int| 0 <= i < difficulty ==> hash[i] == 0u8
}

/// Whether `nonce` solves the payload at the given difficulty.
pub open spec fn is_solution(payload: Seq<u8>, difficulty: nat, nonce: u32) -> bool {
    meets_difficulty(spec_extend(payload, nonce), difficulty)
}

/// Whether `found` is a proof of work for the payload: the id is the payload's digest,
/// the hash is the digest of payload and nonce, and the hash shows the zero prefix.
pub open spec fn is_proof_of_work(payload: Seq<u8>, difficulty: nat, found: BlockHash) -> bool {
    is_proof_of_work_value(payload, difficulty, found@)
}

/// The same over the value of the record.
pub open spec fn is_proof_of_work_value(
    payload: Seq<u8>,
    difficulty: nat,
    found: crate::proto::BlockHashView,
) -> bool {
    &&& found.id == spec_digest(payload)
    &&& found.hash == spec_extend(payload, found.nonce)
    &&& meets_difficulty(found.hash, difficulty)
}

/// Whether some nonce between `first` and `last`, both included, solves the payload.
pub open spec fn solvable(payload: Seq<u8>, difficulty: nat, first: u32, last: u32) -> bool {
    exists|n: u32| first <= n <= last && #[trigger] is_solution(payload, difficulty, n)
}

/// The nonce as four bytes, most significant first.
pub fn nonce_bytes(nonce: u32) -> (out: Vec<u8>)
    ensures
        out@ == be_bytes(nonce),
{
    let b0: u8 = (nonce >> 24) as u8;
    let b1: u8 = ((nonce >> 16) & 0xff) as u8;
    let b2: u8 = ((nonce >> 8) & 0xff) as u8;
    let b3: u8 = (nonce & 0xff) as u8;
    let mut out: Vec<u8> = Vec::with_capacity(4);
    out.push(b0);
    out.push(b1);
    out.push(b2);
    out.push(b3);
    assert(out@ =~= be_bytes(nonce));
    out
}

/// Absorbs the payload and returns the state to extend.
pub fn blake3_base_hash(data: &[u8]) -> (state: HashState)
    ensures
        state@ == data@,
{
    let mut hasher = hasher_new();
    hasher_update(&mut hasher, data);
    assert(Seq::<u8>::empty() + data@ =~= data@);
    HashState { hasher }
}

/// Absorbs the big-endian nonce into the state and finalises.
pub fn blake3_hash(state: HashState, nonce: u32) -> (hash: Vec<u8>)
    ensures
        hash@ == spec_extend(state@, nonce),
        hash@.len() == DIGEST_LEN,
{
    proof {
        use_type_invariant(&state);
    }
    let mut hasher = state.hasher;
    let bytes = nonce_bytes(nonce);
    hasher_update(&mut hasher, bytes.as_slice());
    hasher_finalize(&hasher)
}

/// The content address of a block: the digest of its payload alone.
pub fn get_block_id(block: &Block) -> (id: Vec<u8>)
    ensures
        id@ == spec_digest(block@),
        id@.len() == DIGEST_LEN,
{
    digest_of(block.data.as_slice())
}

/// Checks the difficulty predicate on a digest.
pub fn has_zero_prefix(hash: &Vec<u8>, difficulty: usize) -> (ok: bool)
    ensures
        ok == meets_difficulty(hash@, difficulty as nat),
{
    if difficulty > hash.len() {
        return false;
    }
    let mut i: usize = 0;
    while i < difficulty
        invariant
            i <= difficulty <= hash.len(),
            forall|k: int| 0 <= k < i ==> hash@[k] == 0u8,
        decreases difficulty - i,
    {
        if hash[i] != 0 {
            return false;
        }
        i += 1;
    }
    true
}

/// Tries one nonce on a copy of the state.
pub fn nonce_matches(state: &HashState, difficulty: usize, nonce: u32) -> (ok: bool)
    ensures
        ok == is_solution(state@, difficulty as nat, nonce),
{
    let hash = blake3_hash(state.clone(), nonce);
    has_zero_prefix(&hash, difficulty)
}

/// `rayon`'s `find_any` over the inclusive nonce range, with [`nonce_matches`] as the
/// predicate: some nonce of the range that matches, not necessarily the smallest, or
/// `None` when no nonce of the range matches.
#[verifier::external_body]
fn find_any_nonce(state: &HashState, difficulty: usize, first: u32, last: u32) -> (found: Option<u32>)
    ensures
        found matches Some(n) ==> first <= n <= last && is_solution(state@, difficulty as nat, n),
        found is None ==> !solvable(state@, difficulty as nat, first, last),
{
    (first..=last).into_par_iter().find_any(|n| nonce_matches(state, difficulty, *n))
}

/// Turns the outcome of a search into the record to publish: nothing when the search was
/// exhausted, otherwise the id, the winning hash and the nonce.
pub fn seal(block: &Block, state: HashState, found: Option<u32>) -> (sealed: Option<BlockHash>)
    requires
        state@ == block@,
    ensures
        found is None ==> sealed is None,
        found matches Some(n) ==> (sealed matches Some(h) && h.nonce == n && h.id@ == spec_digest(
            block@,
        ) && h.hash@ == spec_extend(block@, n)),
        sealed matches Some(h) ==> h.id@.len() == DIGEST_LEN && h.hash@.len() == DIGEST_LEN,
{
    match found {
        None => None,
        Some(n) => {
            let id = get_block_id(block);
            let hash = blake3_hash(state, n);
            Some(BlockHash { id, hash, nonce: n })
        },
    }
}

/// Searches the nonces from `first` to `last`, both included, for one whose digest shows
/// `difficulty` leading zero bytes. Any matching nonce may win. `None` means that the
/// range holds no match.
pub fn pow_in(block: &Block, difficulty: usize, first: u32, last: u32) -> (found: Option<BlockHash>)
    ensures
        found is Some <==> solvable(block@, difficulty as nat, first, last),
        found matches Some(h) ==> first <= h.nonce <= last && is_proof_of_work(
            block@,
            difficulty as nat,
            h,
        ),
        found matches Some(h) ==> h.id@.len() == DIGEST_LEN && h.hash@.len() == DIGEST_LEN,
        difficulty == 0 && first <= last ==> found is Some,
{
    proof {
        lemma_zero_difficulty(block@, first);
    }
    let state = blake3_base_hash(block.data.as_slice());
    let nonce = find_any_nonce(&state, difficulty, first, last);
    seal(block, state, nonce)
}

/// Proof of work at the standard difficulty over the whole nonce space.
pub fn pow(block: Block) -> (found: Option<BlockHash>)
    ensures
        found is Some <==> solvable(block@, PREFIX_ZERO_NUM as nat, 0, u32::MAX),
        found matches Some(h) ==> is_proof_of_work(block@, PREFIX_ZERO_NUM as nat, h),
        found matches Some(h) ==> h.id@.len() == DIGEST_LEN && h.hash@.len() == DIGEST_LEN,
{
    pow_in(&block, PREFIX_ZERO_NUM, 0, u32::MAX)
}

/// With no zero byte demanded every nonce is a solution, the smallest included.
pub proof fn lemma_zero_difficulty(payload: Seq<u8>, nonce: u32)
    ensures
        is_solution(payload, 0, nonce),
{
}

/// A nonce that solves the payload makes every window that holds it solvable: nonce
/// zero, the smallest, counts like any other.
pub proof fn lemma_solution_counts(payload: Seq<u8>, difficulty: nat, nonce: u32, last: u32)
    requires
        is_solution(payload, difficulty, nonce),
        nonce <= last,
    ensures
        solvable(payload, difficulty, 0, last),
{
}

/// The id of a proof of work is fixed by the payload, whichever nonce was found and
/// whatever the difficulty.
pub proof fn lemma_id_is_stable(
    payload: Seq<u8>,
    d1: nat,
    h1: BlockHash,
    d2: nat,
    h2: BlockHash,
)
    requires
        is_proof_of_work(payload, d1, h1),
        is_proof_of_work(payload, d2, h2),
    ensures
        h1.id@ == h2.id@,
{
}

} // verus!
