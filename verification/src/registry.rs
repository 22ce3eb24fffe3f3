//! The registry itself: the whitelist, the slot assignment, and the
//! record store.

use vstd::prelude::*;

use crate::types::{clone_record, identity_eq, is_zero_identity, zero_address, Error, HackerInfo, Identity};

verus! {

/// A slot: the 1-based position a whitelisted identity was inserted at.
/// Slot 0 is reserved and means "no assignment".
pub type HackerId = u64;

/// No identity occurs twice in the sequence.
pub open spec fn distinct_identities(s: Seq<Identity>) -> bool {
    forall|i: int, j: int| 0 <= i < j < s.len() ==> s[i] != s[j]
}

/// The slot the scan over `wl` resolves `who` to: the last index whose
/// entry equals `who`, or 0 when no entry does.
pub open spec fn slot_of(wl: Seq<Identity>, who: Identity) -> int
    decreases wl.len(),
{
    if wl.len() == 0 {
        0
    } else if wl.last() == who {
        wl.len() - 1
    } else {
        slot_of(wl.drop_last(), who)
    }
}

/// How the whitelist scan resolves: when `who` is present the resolved
/// slot is an index holding `who` and no later index holds it; when
/// absent the resolved slot is 0.
pub proof fn lemma_slot_of_props(wl: Seq<Identity>, who: Identity)
    ensures
        wl.contains(who) ==> {
            &&& 0 <= slot_of(wl, who) < wl.len()
            &&& wl[slot_of(wl, who)] == who
            &&& forall|j: int| slot_of(wl, who) < j < wl.len() ==> wl[j] != who
        },
        !wl.contains(who) ==> slot_of(wl, who) == 0,
    decreases wl.len(),
{
    if wl.len() == 0 {
    } else if wl.last() == who {
        assert(wl[wl.len() - 1] == who);
    } else {
        lemma_slot_of_props(wl.drop_last(), who);
        assert forall|k: int| 0 <= k < wl.len() - 1 implies wl.drop_last()[k] == wl[k] by {}
        if wl.contains(who) {
            let w = choose|i: int| 0 <= i < wl.len() && wl[i] == who;
            assert(wl.drop_last()[w] == who);
            assert(wl.drop_last().contains(who));
        }
    }
}

/// Under a duplicate-free whitelist the resolved slot of a present
/// identity is its unique index.
pub proof fn lemma_slot_of_unique(wl: Seq<Identity>, who: Identity, i: int)
    requires
        distinct_identities(wl),
        0 <= i < wl.len(),
        wl[i] == who,
    ensures
        slot_of(wl, who) == i,
{
    assert(wl.contains(who));
    lemma_slot_of_props(wl, who);
}

/// The whitelist after a batch add: each identity of `ids` in order,
/// appended once when not yet present, silently skipped otherwise.
pub open spec fn extend_unique(wl: Seq<Identity>, ids: Seq<Identity>) -> Seq<Identity>
    decreases ids.len(),
{
    if ids.len() == 0 {
        wl
    } else {
        let prev = extend_unique(wl, ids.drop_last());
        if prev.contains(ids.last()) {
            prev
        } else {
            prev.push(ids.last())
        }
    }
}

/// A run of `n` empty record slots.
pub open spec fn blank_records(n: int) -> Seq<Option<HackerInfo>> {
    Seq::new(n as nat, |i: int| None::<HackerInfo>)
}

/// Every submitted record in ascending slot order: the record store with
/// the empty slots dropped.
pub open spec fn collect_records(rs: Seq<Option<HackerInfo>>) -> Seq<HackerInfo>
    decreases rs.len(),
{
    if rs.len() == 0 {
        Seq::empty()
    } else {
        let rest = collect_records(rs.drop_last());
        match rs.last() {
            Some(info) => rest.push(info),
            None => rest,
        }
    }
}

/// The registry: an administrator fixed at construction, the append-only
/// whitelist (entry 0 is the reserved all-zero identity), and one record
/// slot per whitelist entry.
pub struct PhatForm {
    /// The administrator identity, fixed at construction.
    pub admin: Identity,
    /// The append-only whitelist; index `i` is the identity assigned
    /// slot `i`, and index 0 is the reserved all-zero identity.
    pub whitelist: Vec<Identity>,
    /// The record store over slots: `hackers[s]` is the record
    /// submitted under slot `s`, or `None`.
    pub hackers: Vec<Option<HackerInfo>>,
    /// The reserved all-zero identity.
    pub default_address: Identity,
    /// The slot the next whitelisted identity will receive.
    pub next_hacker_id: HackerId,
}

impl PhatForm {
    /// Well-formedness: the whitelist and the record store both have one
    /// entry per slot handed out so far, slot 0 holds the reserved
    /// all-zero identity and no record, and no identity is listed twice.
    pub open spec fn wf(self) -> bool {
        &&& self.whitelist@.len() == self.next_hacker_id as int
        &&& self.hackers@.len() == self.next_hacker_id as int
        &&& self.next_hacker_id >= 1
        &&& is_zero_identity(self.whitelist@[0])
        &&& self.hackers@[0] is None
        &&& distinct_identities(self.whitelist@)
    }

    /// Builds a fresh registry for the given administrator: a whitelist
    /// holding only the reserved all-zero identity, no records, and slot
    /// counter 1.
    pub fn default(admin: Identity) -> (r: PhatForm)
        ensures
            r.wf(),
            r.admin == admin,
            r.whitelist@.len() == 1,
            is_zero_identity(r.whitelist@[0]),
            r.hackers@ =~= seq![None::<HackerInfo>],
            r.default_address == r.whitelist@[0],
            r.next_hacker_id == 1,
    {
        let zero = zero_address();
        let mut whitelist_vec: Vec<Identity> = Vec::new();
        whitelist_vec.push(zero);
        let mut hackers_vec: Vec<Option<HackerInfo>> = Vec::new();
        hackers_vec.push(None);
        PhatForm {
            admin,
            whitelist: whitelist_vec,
            hackers: hackers_vec,
            default_address: zero,
            next_hacker_id: 1,
        }
    }

    /// The slot counter: 1 + the number of identities ever whitelisted,
    /// not the number of submitted records. No permission check.
    pub fn hacker_count(&self) -> (r: u64)
        ensures
            r == self.next_hacker_id,
    {
        self.next_hacker_id
    }

    /// Whether `who` stands anywhere in the whitelist.
    fn in_whitelist(&self, who: &Identity) -> (r: bool)
        ensures
            r == self.whitelist@.contains(*who),
    {
        let mut i: usize = 0;
        while i < self.whitelist.len()
            invariant
                0 <= i <= self.whitelist@.len(),
                forall|j: int| 0 <= j < i ==> self.whitelist@[j] != *who,
            decreases self.whitelist@.len() - i,
        {
            if identity_eq(&self.whitelist[i], who) {
                return true;
            }
            i = i + 1;
        }
        false
    }

    /// Resolves `account` by the full scan over the whitelist: the last
    /// matching position wins, and 0 is returned when nothing matches.
    pub fn get_hacker_id_or_zero(&self, account: Identity) -> (r: HackerId)
        requires
            self.wf(),
        ensures
            r as int == slot_of(self.whitelist@, account),
    {
        let mut index: u64 = 0;
        let mut id: usize = 0;
        while id < self.whitelist.len()
            invariant
                self.wf(),
                0 <= id <= self.whitelist@.len(),
                index as int == slot_of(self.whitelist@.take(id as int), account),
            decreases self.whitelist@.len() - id,
        {
            let hacker_account = self.whitelist[id];
            proof {
                assert(self.whitelist@.take(id as int + 1).drop_last() =~= self.whitelist@.take(
                    id as int,
                ));
                assert(self.whitelist@.take(id as int + 1).last() == self.whitelist@[id as int]);
            }
            if identity_eq(&account, &hacker_account) {
                index = id as u64;
            }
            id = id + 1;
        }
        proof {
            assert(self.whitelist@.take(self.whitelist@.len() as int) =~= self.whitelist@);
        }
        index
    }

    /// Stores `info` under the caller's resolved slot. A caller outside
    /// the whitelist is refused with `NoPermissions`; one resolving to
    /// the reserved slot 0 is refused with `MissingHackerId`. Otherwise
    /// the record is stored at the slot, overwriting any earlier
    /// submission there, and `Ok(true)` is returned. The whitelist, the
    /// administrator and the slot counter never change.
    pub fn add_hacker_info(&mut self, caller: Identity, info: HackerInfo) -> (r: Result<
        bool,
        Error,
    >)
        requires
            old(self).wf(),
        ensures
            final(self).wf(),
            final(self).admin == old(self).admin,
            final(self).default_address == old(self).default_address,
            final(self).whitelist@ == old(self).whitelist@,
            final(self).next_hacker_id == old(self).next_hacker_id,
            !old(self).whitelist@.contains(caller) ==> r == Err::<bool, Error>(
                Error::NoPermissions,
            ) && *final(self) == *old(self),
            old(self).whitelist@.contains(caller) && slot_of(old(self).whitelist@, caller) == 0
                ==> r == Err::<bool, Error>(Error::MissingHackerId) && *final(self) == *old(self),
            old(self).whitelist@.contains(caller) && slot_of(old(self).whitelist@, caller) != 0
                ==> r == Ok::<bool, Error>(true) && final(self).hackers@ == old(self).hackers@.update(slot_of(old(self).whitelist@, caller), Some(info)),
    {
        if !self.in_whitelist(&caller) {
            return Err(Error::NoPermissions);
        }
        let id = self.get_hacker_id_or_zero(caller);
        if id == 0 {
            return Err(Error::MissingHackerId);
        }
        proof {
            lemma_slot_of_props(self.whitelist@, caller);
        }
        let stored = self.hackers.len();
        proof {
            assert((id as int) < (stored as int));
        }
        let idx: usize = id as usize;
        self.hackers[idx] = Some(info);
        Ok(true)
    }

    /// Appends `account` to the whitelist at the next free slot and
    /// advances the slot counter. A requester other than the
    /// administrator is refused with `NoPermissions`; an identity
    /// already whitelisted is refused with `AccountAlreadyAdded`. No
    /// error changes the registry.
    pub fn add_to_whitelist(&mut self, caller: Identity, account: Identity) -> (r: Result<
        (),
        Error,
    >)
        requires
            old(self).wf(),
            old(self).next_hacker_id < u64::MAX,
        ensures
            final(self).wf(),
            final(self).admin == old(self).admin,
            final(self).default_address == old(self).default_address,
            caller != old(self).admin ==> r == Err::<(), Error>(Error::NoPermissions) && *final(self) == *old(self),
            caller == old(self).admin && old(self).whitelist@.contains(account) ==> r == Err::<
                (),
                Error,
            >(Error::AccountAlreadyAdded) && *final(self) == *old(self),
            caller == old(self).admin && !old(self).whitelist@.contains(account) ==> {
                &&& r == Ok::<(), Error>(())
                &&& final(self).whitelist@ == old(self).whitelist@.push(account)
                &&& final(self).hackers@ == old(self).hackers@.push(None::<HackerInfo>)
                &&& final(self).next_hacker_id == old(self).next_hacker_id + 1
            },
    {
        if !identity_eq(&caller, &self.admin) {
            return Err(Error::NoPermissions);
        }
        if self.in_whitelist(&account) {
            return Err(Error::AccountAlreadyAdded);
        }
        self.whitelist.push(account);
        self.hackers.push(None);
        self.next_hacker_id = self.next_hacker_id + 1;
        proof {
            assert forall|i: int, j: int|
                0 <= i < j < self.whitelist@.len() implies self.whitelist@[i]
                != self.whitelist@[j] by {
                if j == self.whitelist@.len() - 1 {
                    assert(old(self).whitelist@[i] == self.whitelist@[i]);
                    assert(!old(self).whitelist@.contains(account));
                }
            }
        }
        Ok(())
    }

    /// Appends every identity of `accounts`, in order, that is not yet
    /// whitelisted, assigning slots as `add_to_whitelist` does;
    /// duplicates, within the batch or against the whitelist, are
    /// silently skipped. A requester other than the administrator is
    /// refused with `NoPermissions` before any element is processed.
    pub fn add_vec_to_whitelist(&mut self, caller: Identity, accounts: Vec<Identity>) -> (r: Result<
        (),
        Error,
    >)
        requires
            old(self).wf(),
            old(self).next_hacker_id as int + accounts@.len() <= u64::MAX as int,
        ensures
            final(self).wf(),
            final(self).admin == old(self).admin,
            final(self).default_address == old(self).default_address,
            caller != old(self).admin ==> r == Err::<(), Error>(Error::NoPermissions) && *final(self) == *old(self),
            caller == old(self).admin ==> {
                &&& r == Ok::<(), Error>(())
                &&& final(self).whitelist@ == extend_unique(old(self).whitelist@, accounts@)
                &&& final(self).next_hacker_id as int == final(self).whitelist@.len()
                &&& final(self).hackers@ == old(self).hackers@ + blank_records(
                    final(self).whitelist@.len() - old(self).whitelist@.len(),
                )
            },
    {
        if !identity_eq(&caller, &self.admin) {
            return Err(Error::NoPermissions);
        }
        let ghost old_wl = self.whitelist@;
        let ghost old_rs = self.hackers@;
        let mut k: usize = 0;
        while k < accounts.len()
            invariant
                self.wf(),
                0 <= k <= accounts@.len(),
                self.admin == old(self).admin,
                self.default_address == old(self).default_address,
                self.whitelist@ == extend_unique(old_wl, accounts@.take(k as int)),
                self.next_hacker_id as int == self.whitelist@.len(),
                old_wl.len() as int + accounts@.len() <= u64::MAX as int,
                old_wl.len() <= self.whitelist@.len() <= old_wl.len() + k,
                self.hackers@ == old_rs + blank_records(
                    self.whitelist@.len() - old_wl.len(),
                ),
                old_rs.len() >= 1,
                old_rs[0] is None,
            decreases accounts@.len() - k,
        {
            let account = accounts[k];
            proof {
                assert(accounts@.take(k as int + 1).drop_last() =~= accounts@.take(k as int));
                assert(accounts@.take(k as int + 1).last() == accounts@[k as int]);
            }
            if !self.in_whitelist(&account) {
                self.whitelist.push(account);
                self.hackers.push(None);
                self.next_hacker_id = self.next_hacker_id + 1;
                proof {
                    assert forall|i: int, j: int|
                        0 <= i < j < self.whitelist@.len() implies self.whitelist@[i]
                        != self.whitelist@[j] by {}
                    assert(self.hackers@ =~= old_rs + blank_records(
                        self.whitelist@.len() - old_wl.len(),
                    ));
                }
            }
            k = k + 1;
        }
        proof {
            assert(accounts@.take(accounts@.len() as int) =~= accounts@);
        }
        Ok(())
    }

    /// Hands the administrator every submitted record, in ascending slot
    /// order. A requester other than the administrator is refused with
    /// `NoPermissions`; when no record was ever submitted the result is
    /// `EmptyHackerInfo`.
    pub fn get_all_hacker_info(&self, caller: Identity) -> (r: Result<Vec<HackerInfo>, Error>)
        requires
            self.wf(),
        ensures
            caller != self.admin ==> r == Err::<Vec<HackerInfo>, Error>(Error::NoPermissions),
            caller == self.admin && collect_records(self.hackers@).len() == 0 ==> r == Err::<
                Vec<HackerInfo>,
                Error,
            >(Error::EmptyHackerInfo),
            caller == self.admin && collect_records(self.hackers@).len() > 0 ==> (r matches Ok(v)
                && v@ == collect_records(self.hackers@)),
    {
        if !identity_eq(&caller, &self.admin) {
            return Err(Error::NoPermissions);
        }
        let mut all_hackers: Vec<HackerInfo> = Vec::new();
        let mut id: usize = 0;
        while id < self.hackers.len()
            invariant
                self.wf(),
                0 <= id <= self.hackers@.len(),
                all_hackers@ == collect_records(self.hackers@.take(id as int)),
            decreases self.hackers@.len() - id,
        {
            proof {
                assert(self.hackers@.take(id as int + 1).drop_last() =~= self.hackers@.take(
                    id as int,
                ));
                assert(self.hackers@.take(id as int + 1).last() == self.hackers@[id as int]);
            }
            match &self.hackers[id] {
                Some(info) => {
                    all_hackers.push(clone_record(info));
                },
                None => {},
            }
            id = id + 1;
        }
        proof {
            assert(self.hackers@.take(self.hackers@.len() as int) =~= self.hackers@);
        }
        if all_hackers.is_empty() {
            return Err(Error::EmptyHackerInfo);
        }
        Ok(all_hackers)
    }
}

} // verus!
