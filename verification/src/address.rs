//! Slot addresses. An address is not chosen: it is computed from the seeds
//! that identify a record and from the program that owns the slot, together
//! with a disambiguation byte, the bump, which is searched for.

use solana_program::pubkey::{Pubkey, PubkeyError};
use vstd::prelude::*;

use crate::wire::text_bytes;

verus! {

/// The largest number of seeds that one address may be hashed from, the
/// bump among them.
pub const MAX_SEEDS: usize = 16;

/// The largest number of bytes in one seed.
pub const MAX_SEED_LEN: usize = 32;

/// Why a list of seeds yields no address.
#[derive(Debug, Clone, Copy, PartialEq, Eq, Structural)]
pub(crate) enum SeedError {
    /// There are too many seeds, or one of them is too long.
    MaxSeedLengthExceeded,
    /// The seeds hash to an address that an ordinary key pair could own.
    InvalidSeeds,
    /// The address would belong to a program that may not own one.
    IllegalOwner,
}

/// The bytes of each seed.
pub open spec fn seed_bytes(seeds: Seq<&[u8]>) -> Seq<Seq<u8>> {
    Seq::new(seeds.len(), |i: int| seeds[i]@)
}

/// Whether a list of seeds is within the limits on their number and length.
pub open spec fn seeds_in_bounds(seeds: Seq<Seq<u8>>) -> bool {
    &&& seeds.len() <= MAX_SEEDS
    &&& forall|i: int| 0 <= i < seeds.len() ==> (#[trigger] seeds[i]).len() <= MAX_SEED_LEN
}

/// The address that seeds within the limits hash to under a program:
/// `None` where that address lies on the curve of ordinary keys.
pub uninterp spec fn hashed_address(seeds: Seq<Seq<u8>>, program_id: Seq<u8>) -> Option<Seq<u8>>;

/// Hashes `seeds` to an address of `program_id` with
/// `Pubkey::create_program_address` of solana-program. Assumed, not proved:
/// seeds beyond the limits give `MaxSeedLengthExceeded`; seeds within them
/// give the address that `hashed_address` names, or `InvalidSeeds` where it
/// names none.
#[verifier::external_body]
pub(crate) fn create_program_address(seeds: &[&[u8]], program_id: &[u8; 32]) -> (result: Result<
    [u8; 32],
    SeedError,
>)
    ensures
        !seeds_in_bounds(seed_bytes(seeds@)) ==> result is Err && result->Err_0
            == SeedError::MaxSeedLengthExceeded,
        seeds_in_bounds(seed_bytes(seeds@)) && result is Ok ==> hashed_address(
            seed_bytes(seeds@),
            program_id@,
        ) == Some(result->Ok_0@),
        seeds_in_bounds(seed_bytes(seeds@)) && result is Err ==> result->Err_0
            == SeedError::InvalidSeeds && hashed_address(seed_bytes(seeds@), program_id@) is None,
{
    match Pubkey::create_program_address(seeds, &Pubkey::new_from_array(*program_id)) {
        Ok(address) => Ok(address.to_bytes()),
        Err(PubkeyError::MaxSeedLengthExceeded) => Err(SeedError::MaxSeedLengthExceeded),
        Err(PubkeyError::InvalidSeeds) => Err(SeedError::InvalidSeeds),
        Err(PubkeyError::IllegalOwner) => Err(SeedError::IllegalOwner),
    }
}

/// The seeds with the bump as one more seed of a single byte.
pub open spec fn with_bump(seeds: Seq<Seq<u8>>, bump: u8) -> Seq<Seq<u8>> {
    seeds.push(seq![bump])
}

/// The first bump, from `from` downwards and not below one, with which the
/// seeds hash to an address, and that address.
pub open spec fn search(seeds: Seq<Seq<u8>>, program_id: Seq<u8>, from: nat) -> Option<
    (Seq<u8>, u8),
>
    decreases from,
{
    if from == 0 {
        None
    } else {
        match hashed_address(with_bump(seeds, from as u8), program_id) {
            Some(address) => Some((address, from as u8)),
            None => search(seeds, program_id, (from - 1) as nat),
        }
    }
}

/// The slot address that seeds derive under a program, with its bump: the
/// bumps are tried from 255 downwards, and the first with which the seeds
/// hash to an address decides. There is none where the seeds, with the
/// bump, are beyond the limits, or where no bump from 255 down to 1 gives
/// an address.
pub open spec fn derived(seeds: Seq<Seq<u8>>, program_id: Seq<u8>) -> Option<(Seq<u8>, u8)> {
    if seeds_in_bounds(with_bump(seeds, 0)) {
        search(seeds, program_id, 255)
    } else {
        None
    }
}

/// Whether `result` is what deriving from these seeds has to return.
pub open spec fn is_derived(
    seeds: Seq<Seq<u8>>,
    program_id: Seq<u8>,
    result: Option<([u8; 32], u8)>,
) -> bool {
    match result {
        Some((address, bump)) => derived(seeds, program_id) == Some((address@, bump)),
        None => derived(seeds, program_id) is None,
    }
}

/// The limits look at the length of each seed only, so one bump is as good
/// as another.
pub proof fn lemma_bounds_any_bump(seeds: Seq<Seq<u8>>, a: u8, b: u8)
    ensures
        seeds_in_bounds(with_bump(seeds, a)) == seeds_in_bounds(with_bump(seeds, b)),
{
    let sa = with_bump(seeds, a);
    let sb = with_bump(seeds, b);
    assert forall|i: int| 0 <= i < sa.len() implies (#[trigger] sa[i]).len() == sb[i].len() by {}
    if seeds_in_bounds(sa) {
        assert forall|i: int| 0 <= i < sb.len() implies (#[trigger] sb[i]).len()
            <= MAX_SEED_LEN by {
            assert(sa[i].len() == sb[i].len());
        }
    }
    if seeds_in_bounds(sb) {
        assert forall|i: int| 0 <= i < sa.len() implies (#[trigger] sa[i]).len()
            <= MAX_SEED_LEN by {
            assert(sa[i].len() == sb[i].len());
        }
    }
}

/// What the search finds is the greatest bump from `from` downwards that
/// gives an address; it finds nothing only where none does.
pub proof fn lemma_search_first(seeds: Seq<Seq<u8>>, program_id: Seq<u8>, from: nat)
    requires
        from <= 255,
    ensures
        match search(seeds, program_id, from) {
            Some((address, bump)) => {
                &&& 1 <= bump <= from
                &&& hashed_address(with_bump(seeds, bump), program_id) == Some(address)
                &&& forall|b: u8|
                    bump < b <= from ==> #[trigger] hashed_address(
                        with_bump(seeds, b),
                        program_id,
                    ) is None
            },
            None => forall|b: u8|
                1 <= b <= from ==> #[trigger] hashed_address(
                    with_bump(seeds, b),
                    program_id,
                ) is None,
        },
    decreases from,
{
    if from > 0 {
        lemma_search_first(seeds, program_id, (from - 1) as nat);
    }
}

/// Deriving is a function of the seeds and the program: two results for
/// the same seeds under the same program are the same address and bump.
pub proof fn lemma_derive_deterministic(
    seeds: Seq<Seq<u8>>,
    program_id: Seq<u8>,
    first: Option<([u8; 32], u8)>,
    second: Option<([u8; 32], u8)>,
)
    requires
        is_derived(seeds, program_id, first),
        is_derived(seeds, program_id, second),
    ensures
        first == second,
{
    match (first, second) {
        (Some((a, _)), Some((b, _))) => {
            assert(a@ =~= b@);
            vstd::array::axiom_array_ext_equal(a, b);
        },
        _ => {},
    }
}

/// Derives the slot address of `seeds` under `program_id`, and its bump.
/// Each bump from 255 down to 1 is tried as one more seed, and the first
/// that hashes to an address off the curve of ordinary keys decides.
/// `None` where the seeds are beyond the limits or no bump gives an address.
pub fn derive_address(seeds: &[&[u8]], program_id: &[u8; 32]) -> (result: Option<
    ([u8; 32], u8),
>)
    ensures
        is_derived(seed_bytes(seeds@), program_id@, result),
{
    let ghost plain = seed_bytes(seeds@);
    let mut bump: u8 = 255;
    while bump > 0
        invariant
            plain == seed_bytes(seeds@),
            search(plain, program_id@, 255) == search(plain, program_id@, bump as nat),
            bump < 255 ==> seeds_in_bounds(with_bump(plain, 0)),
        decreases bump,
    {
        let last = [bump];
        let mut candidate: Vec<&[u8]> = Vec::new();
        let mut i: usize = 0;
        while i < seeds.len()
            invariant
                i <= seeds.len(),
                candidate@ == seeds@.subrange(0, i as int),
            decreases seeds.len() - i,
        {
            candidate.push(seeds[i]);
            i += 1;
            assert(candidate@ =~= seeds@.subrange(0, i as int));
        }
        candidate.push(last.as_slice());
        proof {
            assert(last@ =~= seq![bump]);
            assert(seed_bytes(candidate@) =~= with_bump(plain, bump));
            lemma_bounds_any_bump(plain, bump, 0);
        }
        match create_program_address(candidate.as_slice(), program_id) {
            Ok(address) => {
                return Some((address, bump));
            },
            Err(SeedError::InvalidSeeds) => {},
            Err(_) => {
                return None;
            },
        }
        bump -= 1;
    }
    None
}

/// The seeds that identify a form: its creator, then its code.
pub open spec fn form_seeds(creator: Seq<u8>, code: Seq<char>) -> Seq<Seq<u8>> {
    seq![creator, text_bytes(code)]
}

/// The seeds that identify a submission: its author, then the code of the
/// form, then the word "submissions".
pub open spec fn submission_seeds(author: Seq<u8>, code: Seq<char>) -> Seq<Seq<u8>> {
    seq![author, text_bytes(code), text_bytes("submissions"@)]
}

/// Derives the slot address of the form that `creator` names `code`.
pub fn form_address(creator: &[u8; 32], code: &str, program_id: &[u8; 32]) -> (result: Option<
    ([u8; 32], u8),
>)
    ensures
        is_derived(form_seeds(creator@, code@), program_id@, result),
{
    let seeds: [&[u8]; 2] = [creator.as_slice(), code.as_bytes()];
    assert(seed_bytes(seeds@) =~= form_seeds(creator@, code@));
    derive_address(seeds.as_slice(), program_id)
}

/// Derives the slot address of the submission of `author` to the form
/// named `code`.
pub fn submission_address(author: &[u8; 32], code: &str, program_id: &[u8; 32]) -> (result: Option<
    ([u8; 32], u8),
>)
    ensures
        is_derived(submission_seeds(author@, code@), program_id@, result),
{
    let seeds: [&[u8]; 3] = [author.as_slice(), code.as_bytes(), "submissions".as_bytes()];
    assert(seed_bytes(seeds@) =~= submission_seeds(author@, code@));
    derive_address(seeds.as_slice(), program_id)
}

} // verus!
