use vstd::prelude::*;
use vstd::pervasive::VecAdditionalExecFns;
use crate::codec::push_discriminator;
use crate::codec::spec_discriminator;
use crate::codec::zeros;
use crate::errors::ErrorKind;

verus! {

/// One unit of persistent storage: the account at one address. Its size is
/// fixed when it is created and never changes afterwards.
pub struct AccountEntry {
    pub address: [u8; 32],
    pub data: Vec<u8>,
}

/// The ledger's persistent storage: at most one account per address. The
/// surrounding runtime serializes conflicting invocations; within one
/// invocation the ledger is mutated at most once, whole account at a time.
pub struct Ledger {
    entries: Vec<AccountEntry>,
}

/// No two entries share an address.
spec fn distinct_addresses(s: Seq<AccountEntry>) -> bool {
    forall|i: int, j: int| 0 <= i < j < s.len() ==> s[i].address@ != s[j].address@
}

/// The storage the entries denote, as a map from address to account bytes.
spec fn entries_map(s: Seq<AccountEntry>) -> Map<Seq<u8>, Seq<u8>>
    decreases s.len(),
{
    if s.len() == 0 {
        Map::empty()
    } else {
        entries_map(s.drop_last()).insert(s.last().address@, s.last().data@)
    }
}

/// The bytes a fresh account holds: the tag, then an all-zero payload region.
pub open spec fn spec_fresh_account(size: nat) -> Seq<u8>
    recommends
        size >= 8,
{
    spec_discriminator() + zeros((size - 8) as nat)
}

/// Some entry carries address `k`.
spec fn has_addr(s: Seq<AccountEntry>, k: Seq<u8>) -> bool {
    exists|i: int| 0 <= i < s.len() && (#[trigger] s[i]).address@ == k
}

/// An address is stored exactly when some entry carries it.
proof fn lemma_map_contains(s: Seq<AccountEntry>)
    ensures
        forall|k: Seq<u8>| #[trigger] entries_map(s).contains_key(k) <==> has_addr(s, k),
    decreases s.len(),
{
    if s.len() > 0 {
        lemma_map_contains(s.drop_last());
        assert forall|k: Seq<u8>| #[trigger] entries_map(s).contains_key(k) <==> has_addr(
            s,
            k,
        ) by {
            let d = s.drop_last();
            assert(entries_map(s) == entries_map(d).insert(s.last().address@, s.last().data@));
            if entries_map(s).contains_key(k) {
                if k == s.last().address@ {
                    assert((s[s.len() - 1]).address@ == k);
                    assert(has_addr(s, k));
                } else {
                    assert(entries_map(d).contains_key(k));
                    let i = choose|i: int| 0 <= i < d.len() && (#[trigger] d[i]).address@ == k;
                    assert((s[i]).address@ == k);
                    assert(has_addr(s, k));
                }
            }
            if has_addr(s, k) {
                let i = choose|i: int| 0 <= i < s.len() && (#[trigger] s[i]).address@ == k;
                if i == s.len() - 1 {
                    assert(entries_map(s).contains_key(k));
                } else {
                    assert((d[i]).address@ == k);
                    assert(has_addr(d, k));
                    assert(entries_map(s).contains_key(k));
                }
            }
        }
    }
}

/// With distinct addresses, entry `i` is what the map stores at its address.
proof fn lemma_map_index(s: Seq<AccountEntry>, i: int)
    requires
        distinct_addresses(s),
        0 <= i < s.len(),
    ensures
        entries_map(s).contains_key(s[i].address@),
        entries_map(s)[s[i].address@] == s[i].data@,
    decreases s.len(),
{
    if i == s.len() - 1 {
    } else {
        lemma_map_index(s.drop_last(), i);
        assert(s.drop_last()[i] == s[i]);
        assert(s[i].address@ != s.last().address@);
    }
}

/// With distinct addresses, the map holds exactly one account per entry.
proof fn lemma_map_dom_len(s: Seq<AccountEntry>)
    requires
        distinct_addresses(s),
    ensures
        entries_map(s).dom().finite(),
        entries_map(s).dom().len() == s.len(),
    decreases s.len(),
{
    broadcast use vstd::set::group_set_axioms;

    if s.len() > 0 {
        lemma_map_dom_len(s.drop_last());
        lemma_map_contains(s.drop_last());
        assert(!entries_map(s.drop_last()).contains_key(s.last().address@));
        assert(entries_map(s).dom() =~= entries_map(s.drop_last()).dom().insert(
            s.last().address@,
        ));
    }
}

/// Updating the entry that carries an address updates the map at that address
/// and nothing else.
proof fn lemma_map_update(s: Seq<AccountEntry>, i: int, e: AccountEntry)
    requires
        distinct_addresses(s),
        0 <= i < s.len(),
        e.address@ == s[i].address@,
    ensures
        entries_map(s.update(i, e)) == entries_map(s).insert(e.address@, e.data@),
    decreases s.len(),
{
    let t = s.update(i, e);
    if i == s.len() - 1 {
        assert(t.drop_last() =~= s.drop_last());
        assert(entries_map(t) == entries_map(s.drop_last()).insert(e.address@, e.data@));
        assert(entries_map(s.drop_last()).insert(s.last().address@, s.last().data@).insert(
            e.address@,
            e.data@,
        ) =~= entries_map(s.drop_last()).insert(e.address@, e.data@));
    } else {
        lemma_map_update(s.drop_last(), i, e);
        assert(t.drop_last() =~= s.drop_last().update(i, e));
        assert(t.last() == s.last());
        assert(s[i].address@ != s.last().address@);
        assert(entries_map(s).insert(e.address@, e.data@) =~= entries_map(
            s.drop_last(),
        ).insert(e.address@, e.data@).insert(s.last().address@, s.last().data@));
    }
}

/// Two 32-byte identities or addresses are the same value.
pub fn keys_equal(a: &[u8; 32], b: &[u8; 32]) -> (r: bool)
    ensures
        r <==> a@ == b@,
{
    let mut i: usize = 0;
    while i < 32
        invariant
            i <= 32,
            forall|j: int| 0 <= j < i ==> a@[j] == b@[j],
        decreases 32 - i,
    {
        if a[i] != b[i] {
            assert(a@[i as int] != b@[i as int]);
            return false;
        }
        i += 1;
    }
    proof {
        assert(a@ =~= b@);
    }
    true
}

impl View for Ledger {
    type V = Map<Seq<u8>, Seq<u8>>;

    closed spec fn view(&self) -> Map<Seq<u8>, Seq<u8>> {
        entries_map(self.entries@)
    }
}

impl Ledger {
    /// The ledger's invariant: one account per address.
    pub closed spec fn wf(self) -> bool {
        distinct_addresses(self.entries@)
    }

    /// An empty ledger: no account exists yet at any address.
    pub fn new() -> (r: Ledger)
        ensures
            r.wf(),
            r@ == Map::<Seq<u8>, Seq<u8>>::empty(),
    {
        Ledger { entries: Vec::new() }
    }

    /// The position of the entry at `addr`, if one exists.
    fn find_index(&self, addr: &[u8; 32]) -> (r: Option<usize>)
        requires
            self.wf(),
        ensures
            match r {
                Some(i) => i < self.entries@.len() && self.entries@[i as int].address@ == addr@,
                None => !self@.contains_key(addr@),
            },
    {
        let mut i: usize = 0;
        while i < self.entries.len()
            invariant
                i <= self.entries@.len(),
                forall|j: int| 0 <= j < i ==> (#[trigger] self.entries@[j]).address@ != addr@,
            decreases self.entries@.len() - i,
        {
            if keys_equal(&self.entries[i].address, addr) {
                return Some(i);
            }
            i += 1;
        }
        proof {
            lemma_map_contains(self.entries@);
        }
        None
    }

    /// The bytes stored at an address, if an account exists there.
    pub fn get(&self, addr: &[u8; 32]) -> (r: Option<&Vec<u8>>)
        requires
            self.wf(),
        ensures
            match r {
                Some(d) => self@.contains_key(addr@) && d@ == self@[addr@],
                None => !self@.contains_key(addr@),
            },
    {
        match self.find_index(addr) {
            Some(i) => {
                proof {
                    lemma_map_index(self.entries@, i as int);
                }
                Some(&self.entries[i].data)
            },
            None => None,
        }
    }

    /// How many accounts exist.
    pub fn account_count(&self) -> (r: usize)
        requires
            self.wf(),
        ensures
            r == self@.dom().len(),
    {
        proof {
            lemma_map_dom_len(self.entries@);
        }
        self.entries.len()
    }

    /// Get-or-create storage at an address, sized exactly once.
    ///
    /// If no account exists there, allocates exactly `size` bytes, charges the
    /// allocation cost (one unit per byte) to the payer's funds, and writes
    /// the tag; if the payer cannot fund it, fails with `AllocationError` and
    /// changes nothing. If an account already exists, it is returned unchanged
    /// — free of charge — after the defensive check that its size is the
    /// expected one; a mismatch signals a schema conflict and fails with
    /// `AllocationError`. Calling this twice for one address is idempotent:
    /// the second call changes nothing.
    pub fn resolve_or_create(&mut self, addr: &[u8; 32], funds: &mut u64, size: usize) -> (r:
        Result<(), ErrorKind>)
        requires
            old(self).wf(),
            8 <= size,
        ensures
            final(self).wf(),
            ({
                let m = old(self)@;
                let k = addr@;
                if m.contains_key(k) {
                    if m[k].len() == size {
                        r is Ok && final(self)@ == m && *final(funds) == *old(funds)
                    } else {
                        r == Err::<(), ErrorKind>(ErrorKind::AllocationError) && final(self)@ == m
                            && *final(funds) == *old(funds)
                    }
                } else {
                    if *old(funds) >= size as u64 {
                        r is Ok && final(self)@ == m.insert(k, spec_fresh_account(size as nat))
                            && *final(funds) == *old(funds) - size as u64
                    } else {
                        r == Err::<(), ErrorKind>(ErrorKind::AllocationError) && final(self)@ == m
                            && *final(funds) == *old(funds)
                    }
                }
            }),
    {
        match self.find_index(addr) {
            Some(i) => {
                proof {
                    lemma_map_index(self.entries@, i as int);
                }
                if self.entries[i].data.len() == size {
                    Ok(())
                } else {
                    Err(ErrorKind::AllocationError)
                }
            },
            None => {
                if *funds < size as u64 {
                    return Err(ErrorKind::AllocationError);
                }
                *funds = *funds - size as u64;
                let mut data: Vec<u8> = Vec::new();
                push_discriminator(&mut data);
                let mut k: usize = 8;
                while k < size
                    invariant
                        8 <= k <= size,
                        data@ == spec_discriminator() + zeros((k - 8) as nat),
                    decreases size - k,
                {
                    data.push(0u8);
                    proof {
                        assert(spec_discriminator() + zeros((k - 8) as nat) + seq![0u8]
                            =~= spec_discriminator() + zeros((k + 1 - 8) as nat));
                    }
                    k += 1;
                }
                proof {
                    assert(data@ =~= spec_fresh_account(size as nat));
                    lemma_map_contains(self.entries@);
                }
                let ghost s0 = self.entries@;
                self.entries.push(AccountEntry { address: *addr, data });
                proof {
                    assert(self.entries@.drop_last() =~= s0);
                    assert(distinct_addresses(self.entries@));
                }
                Ok(())
            },
        }
    }

    /// Replaces, whole, the bytes of the account at `addr`. The account must
    /// exist and the new content must fill it exactly: storage never resizes.
    pub fn set_data(&mut self, addr: &[u8; 32], data: Vec<u8>)
        requires
            old(self).wf(),
            old(self)@.contains_key(addr@),
            old(self)@[addr@].len() == data@.len(),
        ensures
            final(self).wf(),
            final(self)@ == old(self)@.insert(addr@, data@),
    {
        let idx = self.find_index(addr);
        match idx {
            Some(i) => {
                proof {
                    lemma_map_index(self.entries@, i as int);
                }
                let entry = AccountEntry { address: *addr, data };
                let ghost s0 = self.entries@;
                let ghost e0 = entry;
                self.entries.set(i, entry);
                proof {
                    lemma_map_update(s0, i as int, e0);
                }
            },
            None => {
                proof {
                    assert(false);
                }
            },
        }
    }
}

} // verus!
