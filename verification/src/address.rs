use vstd::prelude::*;

verus! {

/// What the runtime SDK's address derivation returns for the fixed seed
/// b"favorites", an owner identity, and a program identity: the derived
/// address bytes with their canonical bump, or nothing in the statistically
/// improbable case that no bump seed is viable. The result is a function of
/// the two identities alone.
pub uninterp spec fn pda_of(owner: Seq<u8>, program: Seq<u8>) -> Option<(Seq<u8>, u8)>;

/// The derived address for an owner under a program, when one exists.
pub open spec fn derived_address(owner: Seq<u8>, program: Seq<u8>) -> Seq<u8> {
    match pda_of(owner, program) {
        Some(p) => p.0,
        None => Seq::empty(),
    }
}

/// Relies on Pubkey::try_find_program_address: deterministic derivation of a
/// program address from the seeds (b"favorites", owner) and the program
/// identity, with the canonical (largest viable) bump; None only when no bump
/// seed yields a valid address.
#[verifier::external_body]
fn try_find_favorites_address(owner: &[u8; 32], program: &[u8; 32]) -> (r: Option<([u8; 32], u8)>)
    ensures
        (match r {
            Some(p) => Some((p.0@, p.1)),
            None => None::<(Seq<u8>, u8)>,
        }) == pda_of(owner@, program@),
{
    let program_id = anchor_lang::prelude::Pubkey::new_from_array(*program);
    let found = anchor_lang::prelude::Pubkey::try_find_program_address(
        &[b"favorites".as_slice(), owner.as_slice()],
        &program_id,
    );
    found.map(|(address, bump)| (address.to_bytes(), bump))
}

/// Derives the storage address of an owner's favorites record under a program
/// identity, together with its canonical bump.
///
/// The derivation is pure: the result is pinned to a function of the two
/// identities alone, so identical inputs always yield the identical address,
/// and the address is recomputable without any stored index.
pub fn derive_address(owner: &[u8; 32], program: &[u8; 32]) -> (r: Option<([u8; 32], u8)>)
    ensures
        (match r {
            Some(p) => Some((p.0@, p.1)),
            None => None::<(Seq<u8>, u8)>,
        }) == pda_of(owner@, program@),
        r matches Some(p) ==> p.0@ == derived_address(owner@, program@),
{
    try_find_favorites_address(owner, program)
}

} // verus!
