use vstd::prelude::*;
use crate::address::derive_address;
use crate::address::pda_of;
use crate::codec::RECORD_SPACE;
use crate::codec::encode;
use crate::codec::spec_encode;
use crate::errors::ErrorKind;
use crate::ledger::Ledger;
use crate::ledger::keys_equal;
use crate::record::Favorites;
use crate::record::FavoritesView;
use crate::record::record_fits;

verus! {

/// The accounts one `setFavorites` invocation names: the signing user, who is
/// the owner and pays for a first-time creation, and the favorites account
/// the caller asks to write. The runtime's system program needs no model
/// here.
pub struct SetFavorites {
    /// The owner identity the caller claims; also the payer.
    pub user: [u8; 32],
    /// The address the caller supplied for the favorites account.
    pub favorites: [u8; 32],
}

/// The supplied address is exactly the one derived for this owner under this
/// program.
pub open spec fn address_authorized(owner: Seq<u8>, program: Seq<u8>, supplied: Seq<u8>) -> bool {
    match pda_of(owner, program) {
        Some(p) => p.0 == supplied,
        None => false,
    }
}

/// Replaces, with get-or-create semantics, the favorites record an owner
/// stores.
///
/// The ordered validation passes: the signature must authenticate the claimed
/// owner and the supplied address must re-derive from that owner (else
/// `AuthorizationError`); the payload must fit every declared capacity (else
/// `CapacityExceededError`); storage at the address is resolved, or created
/// at the payer's cost (else `AllocationError`). Only then is the encoded
/// record written, fully replacing any prior content. Every failure leaves
/// the ledger and the payer's funds exactly as they were: all-or-nothing.
#[allow(non_snake_case)]
pub fn setFavorites(
    ledger: &mut Ledger,
    funds: &mut u64,
    program_id: &[u8; 32],
    signer: &[u8; 32],
    accounts: &SetFavorites,
    number: u64,
    color: Vec<u8>,
    hobbies: Vec<Vec<u8>>,
) -> (r: Result<(), ErrorKind>)
    requires
        old(ledger).wf(),
    ensures
        final(ledger).wf(),
        ({
            let m = old(ledger)@;
            let k = accounts.favorites@;
            let v = FavoritesView {
                number,
                color: color@,
                hobbies: hobbies@.map_values(|h: Vec<u8>| h@),
            };
            if signer@ != accounts.user@ || !address_authorized(accounts.user@, program_id@, k) {
                r == Err::<(), ErrorKind>(ErrorKind::AuthorizationError) && final(ledger)@ == m
                    && *final(funds) == *old(funds)
            } else if !record_fits(v) {
                r == Err::<(), ErrorKind>(ErrorKind::CapacityExceededError) && final(ledger)@ == m
                    && *final(funds) == *old(funds)
            } else if m.contains_key(k) && m[k].len() != RECORD_SPACE {
                r == Err::<(), ErrorKind>(ErrorKind::AllocationError) && final(ledger)@ == m
                    && *final(funds) == *old(funds)
            } else if !m.contains_key(k) && *old(funds) < RECORD_SPACE as u64 {
                r == Err::<(), ErrorKind>(ErrorKind::AllocationError) && final(ledger)@ == m
                    && *final(funds) == *old(funds)
            } else {
                r is Ok && final(ledger)@ == m.insert(k, spec_encode(v)) && *final(funds) as int
                    == (if m.contains_key(k) {
                    *old(funds) as int
                } else {
                    *old(funds) - RECORD_SPACE as u64
                })
            }
        }),
{
    if !keys_equal(signer, &accounts.user) {
        return Err(ErrorKind::AuthorizationError);
    }
    let derived = derive_address(&accounts.user, program_id);
    match derived {
        None => {
            return Err(ErrorKind::AuthorizationError);
        },
        Some(p) => {
            if !keys_equal(&p.0, &accounts.favorites) {
                return Err(ErrorKind::AuthorizationError);
            }
        },
    }
    let rec = Favorites { number, color, hobbies };
    let encoded = match encode(&rec) {
        Ok(buf) => buf,
        Err(e) => {
            return Err(e);
        },
    };
    let ghost m = ledger@;
    let ghost k = accounts.favorites@;
    match ledger.resolve_or_create(&accounts.favorites, funds, RECORD_SPACE) {
        Ok(()) => {},
        Err(e) => {
            return Err(e);
        },
    }
    proof {
        if !m.contains_key(k) {
            assert(crate::ledger::spec_fresh_account(RECORD_SPACE as nat).len() == RECORD_SPACE);
        }
    }
    ledger.set_data(&accounts.favorites, encoded);
    proof {
        if !m.contains_key(k) {
            assert(m.insert(k, crate::ledger::spec_fresh_account(RECORD_SPACE as nat)).insert(
                k,
                spec_encode(rec@),
            ) =~= m.insert(k, spec_encode(rec@)));
        }
    }
    Ok(())
}

/// The bootstrap instruction, retained only so the program has a trivially
/// testable entry point: it always succeeds, and it mutates nothing — it is
/// not even handed a writable ledger.
pub fn initialize(_caller: &[u8; 32]) -> (r: Result<(), ErrorKind>)
    ensures
        r is Ok,
{
    Ok(())
}

/// Idempotent upsert: two successful writes for one owner land at the same
/// address, so afterwards exactly one account stands there — holding the
/// second payload, whole; the first is gone without trace.
pub proof fn lemma_idempotent_upsert(
    m: Map<Seq<u8>, Seq<u8>>,
    k: Seq<u8>,
    d1: Seq<u8>,
    d2: Seq<u8>,
)
    ensures
        m.insert(k, d1).insert(k, d2) == m.insert(k, d2),
        m.insert(k, d1).insert(k, d2).dom() == m.dom().insert(k),
        m.insert(k, d1).insert(k, d2)[k] == d2,
{
    assert(m.insert(k, d1).insert(k, d2) =~= m.insert(k, d2));
    assert(m.insert(k, d2).dom() =~= m.dom().insert(k));
}

} // verus!
