//! Wallet accounts and trader lists: the nonce sign-in protocol and the
//! per-user curated lists, over an in-memory store. Nonces are single use:
//! a successful verification rotates the nonce, so a replay of the same
//! `(address, nonce, issued_at)` triple no longer matches.

use vstd::prelude::*;

use crate::assoc::{key_index, AssocMap};
use crate::text::{lower_of, str_eq, to_lower};

verus! {

/// One wallet account row.
pub struct UserRecord {
    pub nonce: String,
    pub issued_at: String,
    pub created_at: String,
    pub last_login: String,
}

/// The wallet-account store, keyed by lowercased address.
pub struct AuthStore {
    pub users: AssocMap<UserRecord>,
}

impl AuthStore {
    pub open spec fn wf(&self) -> bool {
        self.users.wf()
    }

    pub fn new() -> (r: Self)
        ensures
            r.wf(),
            r.users.spec_len() == 0,
    {
        AuthStore { users: AssocMap::new() }
    }

    /// Whether a verification triple matches the stored pair for an address.
    pub open spec fn nonce_matches(&self, address: Seq<char>, nonce: Seq<char>, issued_at: Seq<char>) -> bool {
        let key = lower_of(address);
        &&& self.users.spec_contains(key)
        &&& self.users.spec_get(key).nonce@ == nonce
        &&& self.users.spec_get(key).issued_at@ == issued_at
    }

    /// Upsert a user with a fresh nonce and issue stamp: the sign-in
    /// challenge. Creates the account on first sight.
    pub fn upsert_nonce(&mut self, address: &str, nonce: String, now: String)
        requires
            old(self).wf(),
        ensures
            final(self).wf(),
            final(self).users.spec_contains(lower_of(address@)),
            final(self).users.spec_get(lower_of(address@)).nonce@ == nonce@,
            final(self).users.spec_get(lower_of(address@)).issued_at@ == now@,
            final(self).users.spec_get(lower_of(address@)).last_login@ == now@,
            // A returning account keeps its creation stamp; a new one is
            // stamped now.
            old(self).users.spec_contains(lower_of(address@)) ==> final(self).users.spec_get(
                lower_of(address@),
            ).created_at@ == old(self).users.spec_get(lower_of(address@)).created_at@,
            !old(self).users.spec_contains(lower_of(address@)) ==> final(self).users.spec_get(
                lower_of(address@),
            ).created_at@ == now@,
            final(self).nonce_matches(address@, nonce@, now@),
            forall|k: Seq<char>|
                k != lower_of(address@) && #[trigger] old(self).users.spec_contains(k) ==> final(self).users.spec_contains(k) && final(self).users.spec_get(k) == old(self).users.spec_get(k),
    {
        let key = to_lower(address);
        let record = match self.users.get(key.as_str()) {
            Some(existing) => UserRecord {
                nonce,
                issued_at: now.clone(),
                created_at: existing.created_at.clone(),
                last_login: now,
            },
            None => UserRecord {
                nonce,
                issued_at: now.clone(),
                created_at: now.clone(),
                last_login: now,
            },
        };
        let ghost pre = self.users;
        self.users.insert(key, record);
        proof {
            assert forall|k: Seq<char>|
                k != lower_of(address@) && #[trigger] pre.spec_contains(k) implies self
                .users.spec_contains(k) && self.users.spec_get(k) == pre.spec_get(k) by {
                crate::assoc::lemma_key_index_found(pre.skeys(), k, 0);
                let i = key_index(pre.skeys(), k);
                if key_index(pre.skeys(), lower_of(address@)) >= 0 {
                    crate::assoc::lemma_key_index_found(pre.skeys(), lower_of(address@), 0);
                    assert(self.users.skeys() == pre.skeys());
                    assert(i != key_index(pre.skeys(), lower_of(address@)));
                } else {
                    crate::assoc::lemma_key_index_push_preserves(
                        pre.skeys(),
                        lower_of(address@),
                        k,
                        0,
                    );
                }
            }
        }
    }

    /// Verify a sign-in: the triple must match the stored pair exactly; on
    /// success the nonce rotates to `new_nonce` and the login stamp moves.
    /// On any mismatch the store is untouched.
    pub fn verify_and_rotate_nonce(
        &mut self,
        address: &str,
        nonce: &str,
        issued_at: &str,
        new_nonce: String,
        now: String,
    ) -> (r: bool)
        requires
            old(self).wf(),
        ensures
            final(self).wf(),
            r == old(self).nonce_matches(address@, nonce@, issued_at@),
            r ==> ({
                let key = lower_of(address@);
                &&& final(self).users.skeys() == old(self).users.skeys()
                &&& final(self).users.spec_contains(key)
                &&& final(self).users.spec_get(key).nonce@ == new_nonce@
                &&& final(self).users.spec_get(key).issued_at@ == old(self).users.spec_get(
                    key,
                ).issued_at@
                &&& final(self).users.spec_get(key).created_at@ == old(self).users.spec_get(
                    key,
                ).created_at@
                &&& final(self).users.spec_get(key).last_login@ == now@
                &&& (forall|k: Seq<char>|
                    k != key && #[trigger] old(self).users.spec_contains(k) ==> final(self).users.spec_get(k) == old(self).users.spec_get(k))
            }),
            !r ==> *final(self) == *old(self),
    {
        let key = to_lower(address);
        let idx = match self.users.index_of(key.as_str()) {
            Some(i) => i,
            None => {
                return false;
            },
        };
        let stored = self.users.val_at(idx);
        if !(str_eq(stored.nonce.as_str(), nonce) && str_eq(stored.issued_at.as_str(), issued_at)) {
            return false;
        }
        let rotated = UserRecord {
            nonce: new_nonce,
            issued_at: stored.issued_at.clone(),
            created_at: stored.created_at.clone(),
            last_login: now,
        };
        let ghost pre = self.users;
        self.users.set_val_at(idx, rotated);
        proof {
            assert(key_index(self.users.skeys(), lower_of(address@)) == idx as int);
            assert forall|k: Seq<char>|
                k != lower_of(address@) && #[trigger] pre.spec_contains(k) implies
                self.users.spec_get(k) == pre.spec_get(k) by {
                crate::assoc::lemma_key_index_found(pre.skeys(), k, 0);
            }
        }
        true
    }
}

/// Nonce rotation: once a verification has succeeded and rotated the nonce,
/// replaying the very same `(address, nonce, issued_at)` triple no longer
/// matches — as long as the fresh nonce differs from the spent one.
pub proof fn lemma_nonce_single_use(
    s: AuthStore,
    address: Seq<char>,
    nonce: Seq<char>,
    issued_at: Seq<char>,
    new_nonce: Seq<char>,
)
    requires
        s.users.spec_contains(lower_of(address)),
        s.users.spec_get(lower_of(address)).nonce@ == new_nonce,
        new_nonce != nonce,
    ensures
        !s.nonce_matches(address, nonce, issued_at),
{
}

/// A member of a trader list.
pub struct MemberRecord {
    pub label: Option<String>,
    pub added_at: String,
}

/// One curated trader list.
pub struct ListRecord {
    pub owner: String,
    pub name: String,
    pub created_at: String,
    pub updated_at: String,
    /// Members keyed by address; adding an existing address is a no-op.
    pub members: AssocMap<MemberRecord>,
}

/// Why a list operation was refused.
#[derive(Debug)]
pub enum ListError {
    LimitExceeded,
    DuplicateName,
    NotFound,
}

/// Most lists one owner may keep.
pub const MAX_LISTS_PER_USER: usize = 20;

/// Most members one list may hold.
pub const MAX_MEMBERS_PER_LIST: usize = 100;

/// The trader-list store, keyed by list identifier.
pub struct ListStore {
    pub lists: AssocMap<ListRecord>,
}

/// How many of the first `i` lists belong to `owner`.
pub open spec fn owned_upto(vals: Seq<ListRecord>, owner: Seq<char>, i: int) -> nat
    decreases i,
{
    if i <= 0 || i > vals.len() {
        0
    } else {
        owned_upto(vals, owner, i - 1) + if vals[i - 1].owner@ == owner {
            1nat
        } else {
            0nat
        }
    }
}

/// Whether an owner already has a list of this name among the first `i`.
pub open spec fn name_taken_upto(vals: Seq<ListRecord>, owner: Seq<char>, name: Seq<char>, i: int) -> bool {
    exists|j: int| 0 <= j < i && vals[j].owner@ == owner && (#[trigger] vals[j]).name@ == name
}

/// Whether a store's list summary row describes one of `owner`'s lists.
pub open spec fn summarizes(l: ListStore, owner: Seq<char>, t: crate::types::TraderList) -> bool {
    exists|j: int|
        0 <= j < l.lists.svals().len() && #[trigger] l.lists.skeys()[j] == t.id@
            && l.lists.svals()[j].owner@ == owner && l.lists.svals()[j].name@ == t.name@
            && l.lists.svals()[j].created_at@ == t.created_at@ && l.lists.svals()[j].updated_at@
            == t.updated_at@ && t.member_count as nat == (if l.lists.svals()[j].members.spec_len()
            > 0xFFFF_FFFFnat {
            0xFFFF_FFFFnat
        } else {
            l.lists.svals()[j].members.spec_len()
        })
}

impl ListStore {
    pub open spec fn wf(&self) -> bool {
        &&& self.lists.wf()
        &&& forall|j: int| 0 <= j < self.lists.svals().len() ==> (#[trigger] self.lists.svals()[j]).members.wf()
    }

    /// Whether `list_id` names a list that `owner` owns.
    pub open spec fn owned(&self, list_id: Seq<char>, owner: Seq<char>) -> bool {
        self.lists.spec_contains(list_id) && self.lists.spec_get(list_id).owner@ == owner
    }

    pub fn new() -> (r: Self)
        ensures
            r.wf(),
            r.lists.spec_len() == 0,
    {
        ListStore { lists: AssocMap::new() }
    }

    /// Create a list. Refused with `LimitExceeded` at the per-owner cap and
    /// with `DuplicateName` when the owner already has the name; otherwise the
    /// one new, empty list is appended and nothing else changes.
    pub fn create_trader_list(&mut self, id: String, owner: &str, name: &str, now: String) -> (r:
        Result<(), ListError>)
        requires
            old(self).wf(),
            !old(self).lists.spec_contains(id@),
        ensures
            final(self).wf(),
            ({
                let vals = old(self).lists.svals();
                let n = vals.len() as int;
                if owned_upto(vals, owner@, n) >= MAX_LISTS_PER_USER {
                    r matches Err(ListError::LimitExceeded) && *final(self) == *old(self)
                } else if name_taken_upto(vals, owner@, name@, n) {
                    r matches Err(ListError::DuplicateName) && *final(self) == *old(self)
                } else {
                    &&& r is Ok
                    &&& final(self).lists.skeys() == old(self).lists.skeys().push(id@)
                    &&& final(self).lists.svals().len() == old(self).lists.svals().len() + 1
                    &&& (forall|j: int|
                        0 <= j < old(self).lists.svals().len() ==> final(self).lists.svals()[j]
                            == old(self).lists.svals()[j])
                    &&& final(self).lists.spec_contains(id@)
                    &&& final(self).lists.spec_get(id@).owner@ == owner@
                    &&& final(self).lists.spec_get(id@).name@ == name@
                    &&& final(self).lists.spec_get(id@).members.spec_len() == 0
                    &&& final(self).lists.spec_get(id@).created_at@ == now@
                    &&& final(self).lists.spec_get(id@).updated_at@ == now@
                }
            }),
    {
        let n = self.lists.len();
        let mut owned_count: usize = 0;
        let mut taken = false;
        let mut i: usize = 0;
        while i < n
            invariant
                self.wf(),
                n == self.lists.spec_len(),
                i <= n,
                owned_count == owned_upto(self.lists.svals(), owner@, i as int),
                owned_count <= i,
                taken == name_taken_upto(self.lists.svals(), owner@, name@, i as int),
            decreases n - i,
        {
            let rec = self.lists.val_at(i);
            let same_owner = str_eq(rec.owner.as_str(), owner);
            if same_owner {
                owned_count = owned_count + 1;
                if str_eq(rec.name.as_str(), name) {
                    taken = true;
                }
            }
            proof {
                if same_owner && self.lists.svals()[i as int].name@ == name@ {
                    assert(name_taken_upto(self.lists.svals(), owner@, name@, i + 1));
                }
            }
            i = i + 1;
        }
        if owned_count >= MAX_LISTS_PER_USER {
            return Err(ListError::LimitExceeded);
        }
        if taken {
            return Err(ListError::DuplicateName);
        }
        let record = ListRecord {
            owner: crate::digest::chars_to_string(&crate::digest::str_to_chars(owner)),
            name: crate::digest::chars_to_string(&crate::digest::str_to_chars(name)),
            created_at: now.clone(),
            updated_at: now,
            members: AssocMap::new(),
        };
        let ghost pre = self.lists;
        self.lists.insert(id, record);
        proof {
            assert forall|j: int|
                0 <= j < self.lists.svals().len() implies (#[trigger] self.lists.svals()[
                j
            ]).members.wf() by {
                if j < pre.svals().len() {
                    assert(self.lists.svals()[j] == pre.svals()[j]);
                }
            }
        }
        Ok(())
    }

    /// Addresses of a list's members. `NotFound` when the list does not
    /// exist or belongs to someone else.
    pub fn get_list_member_addresses(&self, list_id: &str, owner: &str) -> (r: Result<
        Vec<String>,
        ListError,
    >)
        requires
            self.wf(),
        ensures
            match r {
                Ok(addrs) => self.owned(list_id@, owner@) && addrs.deep_view()
                    == self.lists.spec_get(list_id@).members.skeys(),
                Err(e) => e is NotFound && !self.owned(list_id@, owner@),
            },
    {
        let idx = match self.lists.index_of(list_id) {
            Some(i) => i,
            None => {
                return Err(ListError::NotFound);
            },
        };
        let rec = self.lists.val_at(idx);
        if !str_eq(rec.owner.as_str(), owner) {
            return Err(ListError::NotFound);
        }
        let m = rec.members.len();
        let mut out: Vec<String> = Vec::new();
        let mut i: usize = 0;
        while i < m
            invariant
                self.wf(),
                idx < self.lists.spec_len(),
                rec == self.lists.svals()[idx as int],
                rec.members.wf(),
                m == rec.members.spec_len(),
                i <= m,
                out@.len() == i,
                forall|j: int| 0 <= j < i ==> out@[j]@ == rec.members.skeys()[j],
            decreases m - i,
        {
            out.push(rec.members.key_at(i).clone());
            i = i + 1;
        }
        proof {
            assert(out.deep_view() =~= rec.members.skeys());
        }
        Ok(out)
    }

    /// Add members to an owned list; an address already present is left as it
    /// is, so re-adding is a no-op. Refused with `LimitExceeded` when the
    /// member count plus the given addresses would pass the cap, and with
    /// `NotFound` when the list is missing or not owned; a refused call
    /// changes nothing.
    pub fn add_list_members(
        &mut self,
        list_id: &str,
        owner: &str,
        addresses: &Vec<String>,
        now: String,
    ) -> (r: Result<(), ListError>)
        requires
            old(self).wf(),
        ensures
            final(self).wf(),
            ({
                let found = old(self).owned(list_id@, owner@);
                let over = found && old(self).lists.spec_get(list_id@).members.spec_len()
                    + addresses@.len() > MAX_MEMBERS_PER_LIST;
                &&& ((r matches Err(ListError::NotFound)) <==> !found)
                &&& ((r matches Err(ListError::LimitExceeded)) <==> over)
                &&& (r is Ok <==> (found && !over))
                &&& (r is Err ==> *final(self) == *old(self))
            }),
            r is Ok ==> ({
                let prem = old(self).lists.spec_get(list_id@).members;
                let postm = final(self).lists.spec_get(list_id@).members;
                &&& final(self).lists.skeys() == old(self).lists.skeys()
                &&& (forall|k: Seq<char>|
                    k != list_id@ && #[trigger] old(self).lists.spec_contains(k) ==> final(self).lists.spec_get(k) == old(self).lists.spec_get(k))
                &&& (forall|k: Seq<char>|
                    #[trigger] postm.spec_contains(k) <==> (prem.spec_contains(k)
                        || addresses.deep_view().contains(k)))
                &&& (forall|k: Seq<char>|
                    #[trigger] prem.spec_contains(k) ==> postm.spec_get(k) == prem.spec_get(k))
                &&& postm.spec_len() <= MAX_MEMBERS_PER_LIST
                &&& final(self).lists.spec_get(list_id@).owner@ == owner@
                &&& final(self).lists.spec_get(list_id@).name@ == old(self).lists.spec_get(
                    list_id@,
                ).name@
                &&& final(self).lists.spec_get(list_id@).created_at@ == old(self).lists.spec_get(
                    list_id@,
                ).created_at@
                &&& final(self).lists.spec_get(list_id@).updated_at@ == now@
            }),
    {
        let idx = match self.lists.index_of(list_id) {
            Some(i) => i,
            None => {
                return Err(ListError::NotFound);
            },
        };
        if !str_eq(self.lists.val_at(idx).owner.as_str(), owner) {
            return Err(ListError::NotFound);
        }
        let current = self.lists.val_at(idx).members.len();
        if current > MAX_MEMBERS_PER_LIST || addresses.len() > MAX_MEMBERS_PER_LIST - current {
            proof {
                assert(self.lists.spec_get(list_id@).members.spec_len() + addresses@.len()
                    > MAX_MEMBERS_PER_LIST);
            }
            return Err(ListError::LimitExceeded);
        }
        // Rebuild the record with the new members folded in.
        let rec = self.lists.val_at(idx);
        let mut members = clone_members(&rec.members);
        let ghost prem = old(self).lists.spec_get(list_id@).members;
        let n = addresses.len();
        let mut i: usize = 0;
        while i < n
            invariant
                members.wf(),
                n == addresses@.len(),
                i <= n,
                members.spec_len() <= current as nat + i as nat,
                current + n <= MAX_MEMBERS_PER_LIST,
                prem == old(self).lists.spec_get(list_id@).members,
                forall|k: Seq<char>|
                    #[trigger] members.spec_contains(k) ==> prem.spec_contains(k)
                        || addresses.deep_view().contains(k),
                forall|k: Seq<char>|
                    #[trigger] prem.spec_contains(k) ==> members.spec_contains(k)
                        && members.spec_get(k) == prem.spec_get(k),
                forall|x: int|
                    0 <= x < i ==> members.spec_contains(#[trigger] addresses.deep_view()[x]),
                key_index(old(self).lists.skeys(), list_id@) == idx as int,
            decreases n - i,
        {
            let ghost pre = members;
            if !members.contains(addresses[i].as_str()) {
                members.insert(
                    addresses[i].clone(),
                    MemberRecord { label: None, added_at: now.clone() },
                );
                proof {
                    assert(addresses.deep_view()[i as int] == addresses@[i as int]@);
                    assert(addresses.deep_view().contains(addresses@[i as int]@));
                    assert forall|k: Seq<char>| #[trigger] members.spec_contains(k) implies
                        pre.spec_contains(k) || k == addresses@[i as int]@ by {
                        crate::assoc::lemma_contains_push(pre.skeys(), addresses@[i as int]@, k);
                    }
                    assert forall|k: Seq<char>|
                        pre.spec_contains(k) implies #[trigger] members.spec_contains(k)
                            && members.spec_get(k) == pre.spec_get(k) by {
                        crate::assoc::lemma_key_index_found(pre.skeys(), k, 0);
                        crate::assoc::lemma_key_index_push_preserves(
                            pre.skeys(),
                            addresses@[i as int]@,
                            k,
                            0,
                        );
                    }
                }
            } else {
                proof {
                    assert(members.spec_contains(addresses.deep_view()[i as int]));
                }
            }
            proof {
                assert forall|x: int|
                    0 <= x < i + 1 implies members.spec_contains(
                    #[trigger] addresses.deep_view()[x],
                ) by {
                    if x < i {
                        assert(pre.spec_contains(addresses.deep_view()[x]));
                    }
                }
            }
            i = i + 1;
        }
        proof {
            assert forall|k: Seq<char>|
                (prem.spec_contains(k) || addresses.deep_view().contains(k)) implies
                #[trigger] members.spec_contains(k) by {
                if addresses.deep_view().contains(k) {
                    let x = choose|x: int|
                        0 <= x < addresses.deep_view().len() && addresses.deep_view()[x] == k;
                    assert(members.spec_contains(addresses.deep_view()[x]));
                }
            }
        }
        let updated = ListRecord {
            owner: rec_owner(self.lists.val_at(idx)),
            name: rec_name(self.lists.val_at(idx)),
            created_at: rec_created(self.lists.val_at(idx)),
            updated_at: now,
            members,
        };
        let ghost pre_lists = self.lists;
        self.lists.set_val_at(idx, updated);
        proof {
            assert(key_index(self.lists.skeys(), list_id@) == idx as int);
            assert forall|j: int|
                0 <= j < self.lists.svals().len() implies (#[trigger] self.lists.svals()[
                j
            ]).members.wf() by {
                if j != idx {
                    assert(self.lists.svals()[j] == pre_lists.svals()[j]);
                }
            }
            assert forall|k: Seq<char>|
                k != list_id@ && #[trigger] pre_lists.spec_contains(k) implies self.lists.spec_get(
                k,
            ) == pre_lists.spec_get(k) by {
                crate::assoc::lemma_key_index_found(pre_lists.skeys(), k, 0);
            }
        }
        Ok(())
    }

    /// Rename an owned list: the name and update stamp change, everything
    /// else — the members included — stays. `NotFound` when the list is
    /// missing or not owned, and then nothing changes.
    pub fn rename_trader_list(&mut self, list_id: &str, owner: &str, new_name: String, now: String)
        -> (r: Result<(), ListError>)
        requires
            old(self).wf(),
        ensures
            final(self).wf(),
            r is Ok <==> old(self).owned(list_id@, owner@),
            r is Err ==> *final(self) == *old(self) && (r matches Err(ListError::NotFound)),
            r is Ok ==> ({
                &&& final(self).lists.skeys() == old(self).lists.skeys()
                &&& (forall|k: Seq<char>|
                    k != list_id@ && #[trigger] old(self).lists.spec_contains(k) ==> final(self).lists.spec_get(k) == old(self).lists.spec_get(k))
                &&& final(self).lists.spec_contains(list_id@)
                &&& final(self).lists.spec_get(list_id@).name@ == new_name@
                &&& final(self).lists.spec_get(list_id@).owner@ == owner@
                &&& final(self).lists.spec_get(list_id@).created_at@ == old(self).lists.spec_get(
                    list_id@,
                ).created_at@
                &&& final(self).lists.spec_get(list_id@).updated_at@ == now@
                &&& final(self).lists.spec_get(list_id@).members.skeys() == old(self).lists.spec_get(list_id@).members.skeys()
                &&& final(self).lists.spec_get(list_id@).members.svals() == old(self).lists.spec_get(list_id@).members.svals()
            }),
    {
        let idx = match self.lists.index_of(list_id) {
            Some(i) => i,
            None => {
                return Err(ListError::NotFound);
            },
        };
        if !str_eq(self.lists.val_at(idx).owner.as_str(), owner) {
            return Err(ListError::NotFound);
        }
        let rec = self.lists.val_at(idx);
        let updated = ListRecord {
            owner: rec_owner(rec),
            name: new_name,
            created_at: rec_created(rec),
            updated_at: now,
            members: clone_members(&rec.members),
        };
        let ghost pre_lists = self.lists;
        self.lists.set_val_at(idx, updated);
        proof {
            assert(key_index(self.lists.skeys(), list_id@) == idx as int);
            assert forall|j: int|
                0 <= j < self.lists.svals().len() implies (#[trigger] self.lists.svals()[
                j
            ]).members.wf() by {
                if j != idx {
                    assert(self.lists.svals()[j] == pre_lists.svals()[j]);
                }
            }
            assert forall|k: Seq<char>|
                k != list_id@ && #[trigger] pre_lists.spec_contains(k) implies self.lists.spec_get(
                k,
            ) == pre_lists.spec_get(k) by {
                crate::assoc::lemma_key_index_found(pre_lists.skeys(), k, 0);
            }
        }
        Ok(())
    }

    /// Delete an owned list; its member table goes with the record, and every
    /// other list is untouched. `NotFound` when the list is missing or not
    /// owned, and then nothing changes.
    pub fn delete_trader_list(&mut self, list_id: &str, owner: &str) -> (r: Result<(), ListError>)
        requires
            old(self).wf(),
        ensures
            final(self).wf(),
            r is Ok <==> old(self).owned(list_id@, owner@),
            r is Err ==> *final(self) == *old(self) && (r matches Err(ListError::NotFound)),
            r is Ok ==> ({
                &&& !final(self).lists.spec_contains(list_id@)
                &&& (forall|k: Seq<char>|
                    #[trigger] final(self).lists.spec_contains(k) <==> (old(self).lists.spec_contains(k) && k != list_id@))
                &&& (forall|k: Seq<char>|
                    #[trigger] final(self).lists.spec_contains(k) ==> final(self).lists.spec_get(k)
                        == old(self).lists.spec_get(k))
            }),
    {
        let idx = match self.lists.index_of(list_id) {
            Some(i) => i,
            None => {
                return Err(ListError::NotFound);
            },
        };
        if !str_eq(self.lists.val_at(idx).owner.as_str(), owner) {
            return Err(ListError::NotFound);
        }
        let ghost pre_lists = self.lists;
        self.lists.remove_at(idx);
        proof {
            assert forall|j: int|
                0 <= j < self.lists.svals().len() implies (#[trigger] self.lists.svals()[
                j
            ]).members.wf() by {
                let oj = if j < idx {
                    j
                } else {
                    j + 1
                };
                assert(self.lists.svals()[j] == pre_lists.svals()[oj]);
            }
            assert forall|k: Seq<char>|
                #[trigger] self.lists.spec_contains(k) <==> (pre_lists.spec_contains(k) && k
                    != list_id@) by {
                crate::assoc::lemma_remove_at_semantics(pre_lists, self.lists, idx as int, k);
            }
            assert forall|k: Seq<char>|
                #[trigger] self.lists.spec_contains(k) implies self.lists.spec_get(k)
                    == pre_lists.spec_get(k) by {
                crate::assoc::lemma_remove_at_semantics(pre_lists, self.lists, idx as int, k);
            }
        }
        Ok(())
    }

    /// Remove members from an owned list: afterwards the member table holds
    /// exactly the old members not named, unchanged; absent addresses are
    /// ignored. `NotFound` when the list is missing or not owned, and then
    /// nothing changes.
    pub fn remove_list_members(
        &mut self,
        list_id: &str,
        owner: &str,
        addresses: &Vec<String>,
        now: String,
    ) -> (r: Result<(), ListError>)
        requires
            old(self).wf(),
        ensures
            final(self).wf(),
            r is Ok <==> old(self).owned(list_id@, owner@),
            r is Err ==> *final(self) == *old(self) && (r matches Err(ListError::NotFound)),
            r is Ok ==> ({
                let prem = old(self).lists.spec_get(list_id@).members;
                let postm = final(self).lists.spec_get(list_id@).members;
                &&& final(self).lists.skeys() == old(self).lists.skeys()
                &&& (forall|k: Seq<char>|
                    k != list_id@ && #[trigger] old(self).lists.spec_contains(k) ==> final(self).lists.spec_get(k) == old(self).lists.spec_get(k))
                &&& (forall|k: Seq<char>|
                    #[trigger] postm.spec_contains(k) <==> (prem.spec_contains(k)
                        && !addresses.deep_view().contains(k)))
                &&& (forall|k: Seq<char>|
                    #[trigger] postm.spec_contains(k) ==> postm.spec_get(k) == prem.spec_get(k))
                &&& final(self).lists.spec_get(list_id@).owner@ == owner@
                &&& final(self).lists.spec_get(list_id@).name@ == old(self).lists.spec_get(
                    list_id@,
                ).name@
                &&& final(self).lists.spec_get(list_id@).created_at@ == old(self).lists.spec_get(
                    list_id@,
                ).created_at@
                &&& final(self).lists.spec_get(list_id@).updated_at@ == now@
            }),
    {
        let idx = match self.lists.index_of(list_id) {
            Some(i) => i,
            None => {
                return Err(ListError::NotFound);
            },
        };
        if !str_eq(self.lists.val_at(idx).owner.as_str(), owner) {
            return Err(ListError::NotFound);
        }
        let rec = self.lists.val_at(idx);
        let mut members = clone_members(&rec.members);
        let ghost prem = old(self).lists.spec_get(list_id@).members;
        let n = addresses.len();
        let mut i: usize = 0;
        while i < n
            invariant
                members.wf(),
                n == addresses@.len(),
                i <= n,
                prem == old(self).lists.spec_get(list_id@).members,
                forall|k: Seq<char>|
                    #[trigger] members.spec_contains(k) ==> prem.spec_contains(k) && (forall|x: int|
                        0 <= x < i ==> addresses.deep_view()[x] != k),
                forall|k: Seq<char>|
                    #[trigger] prem.spec_contains(k) && (forall|x: int|
                        0 <= x < i ==> addresses.deep_view()[x] != k) ==> members.spec_contains(k),
                forall|k: Seq<char>|
                    #[trigger] members.spec_contains(k) ==> members.spec_get(k) == prem.spec_get(
                        k,
                    ),
                key_index(old(self).lists.skeys(), list_id@) == idx as int,
            decreases n - i,
        {
            let ghost pre = members;
            let ghost cur = addresses.deep_view()[i as int];
            proof {
                assert(cur == addresses@[i as int]@);
            }
            match members.index_of(addresses[i].as_str()) {
                Some(at) => {
                    proof {
                        assert(pre.skeys()[at as int] == cur);
                    }
                    members.remove_at(at);
                    proof {
                        assert forall|k: Seq<char>|
                            #[trigger] members.spec_contains(k) implies pre.spec_contains(k) && k
                            != cur by {
                            crate::assoc::lemma_remove_at_semantics(pre, members, at as int, k);
                        }
                        assert forall|k: Seq<char>|
                            pre.spec_contains(k) && k != cur implies #[trigger] members.spec_contains(
                            k,
                        ) by {
                            crate::assoc::lemma_remove_at_semantics(pre, members, at as int, k);
                        }
                        assert forall|k: Seq<char>|
                            #[trigger] members.spec_contains(k) implies members.spec_get(k)
                                == pre.spec_get(k) by {
                            crate::assoc::lemma_remove_at_semantics(pre, members, at as int, k);
                        }
                    }
                },
                None => {
                    proof {
                        assert(!pre.spec_contains(cur));
                    }
                },
            }
            proof {
                assert forall|k: Seq<char>|
                    #[trigger] prem.spec_contains(k) && (forall|x: int|
                        0 <= x < i + 1 ==> addresses.deep_view()[x] != k) implies
                    members.spec_contains(k) by {
                    assert(addresses.deep_view()[i as int] != k);
                    assert(forall|x: int| 0 <= x < i ==> addresses.deep_view()[x] != k);
                    assert(pre.spec_contains(k));
                }
                assert forall|k: Seq<char>|
                    #[trigger] members.spec_contains(k) implies prem.spec_contains(k) && (forall|
                        x: int,
                    |
                        0 <= x < i + 1 ==> addresses.deep_view()[x] != k) by {
                    assert(pre.spec_contains(k));
                }
            }
            i = i + 1;
        }
        proof {
            assert forall|k: Seq<char>|
                #[trigger] members.spec_contains(k) <==> (prem.spec_contains(k)
                    && !addresses.deep_view().contains(k)) by {
                if addresses.deep_view().contains(k) {
                    let x = choose|x: int|
                        0 <= x < addresses.deep_view().len() && addresses.deep_view()[x] == k;
                    if members.spec_contains(k) {
                        assert(addresses.deep_view()[x] != k);
                    }
                }
                if prem.spec_contains(k) && !addresses.deep_view().contains(k) {
                    assert(forall|x: int| 0 <= x < n ==> addresses.deep_view()[x] != k);
                }
            }
        }
        let updated = ListRecord {
            owner: rec_owner(self.lists.val_at(idx)),
            name: rec_name(self.lists.val_at(idx)),
            created_at: rec_created(self.lists.val_at(idx)),
            updated_at: now,
            members,
        };
        let ghost pre_lists = self.lists;
        self.lists.set_val_at(idx, updated);
        proof {
            assert(key_index(self.lists.skeys(), list_id@) == idx as int);
            assert forall|j: int|
                0 <= j < self.lists.svals().len() implies (#[trigger] self.lists.svals()[
                j
            ]).members.wf() by {
                if j != idx {
                    assert(self.lists.svals()[j] == pre_lists.svals()[j]);
                }
            }
            assert forall|k: Seq<char>|
                k != list_id@ && #[trigger] pre_lists.spec_contains(k) implies self.lists.spec_get(
                k,
            ) == pre_lists.spec_get(k) by {
                crate::assoc::lemma_key_index_found(pre_lists.skeys(), k, 0);
            }
        }
        Ok(())
    }

    /// The lists an owner keeps, as summaries, in store order: one per owned
    /// list, each carrying that list's identifier, name, stamps and member
    /// count.
    pub fn list_trader_lists(&self, owner: &str) -> (r: Vec<crate::types::TraderList>)
        requires
            self.wf(),
        ensures
            r@.len() == owned_upto(
                self.lists.svals(),
                owner@,
                self.lists.svals().len() as int,
            ),
            forall|x: int| 0 <= x < r@.len() ==> summarizes(*self, owner@, #[trigger] r@[x]),
    {
        let n = self.lists.len();
        let mut out: Vec<crate::types::TraderList> = Vec::new();
        let mut i: usize = 0;
        while i < n
            invariant
                self.wf(),
                n == self.lists.spec_len(),
                i <= n,
                out@.len() == owned_upto(self.lists.svals(), owner@, i as int),
                forall|x: int| 0 <= x < out@.len() ==> summarizes(*self, owner@, #[trigger] out@[x]),
            decreases n - i,
        {
            let ghost preout = out@;
            let rec = self.lists.val_at(i);
            if str_eq(rec.owner.as_str(), owner) {
                let member_count = if rec.members.len() > 0xFFFF_FFFFusize {
                    0xFFFF_FFFFu32
                } else {
                    rec.members.len() as u32
                };
                out.push(
                    crate::types::TraderList {
                        id: self.lists.key_at(i).clone(),
                        name: rec_name(rec),
                        member_count,
                        created_at: rec_created(rec),
                        updated_at: rec_updated(rec),
                    },
                );
                proof {
                    let t = out@[out@.len() - 1];
                    assert(self.lists.skeys()[i as int] == t.id@);
                    assert(summarizes(*self, owner@, t));
                    assert forall|x: int|
                        0 <= x < out@.len() implies summarizes(*self, owner@, #[trigger] out@[
                        x
                    ]) by {
                        if x < preout.len() {
                            assert(out@[x] == preout[x]);
                        }
                    }
                }
            }
            i = i + 1;
        }
        out
    }
}

fn rec_updated(r: &ListRecord) -> (s: String)
    ensures
        s@ == r.updated_at@,
{
    r.updated_at.clone()
}


fn rec_owner(r: &ListRecord) -> (s: String)
    ensures
        s@ == r.owner@,
{
    r.owner.clone()
}

fn rec_name(r: &ListRecord) -> (s: String)
    ensures
        s@ == r.name@,
{
    r.name.clone()
}

fn rec_created(r: &ListRecord) -> (s: String)
    ensures
        s@ == r.created_at@,
{
    r.created_at.clone()
}

/// Copies a trader-flag table, key for key.
pub fn clone_flags(m: &AssocMap<bool>) -> (r: AssocMap<bool>)
    requires
        m.wf(),
    ensures
        r.wf(),
        r.skeys() == m.skeys(),
        r.svals() == m.svals(),
        forall|k: Seq<char>| #[trigger] r.spec_contains(k) <==> m.spec_contains(k),
        r.spec_len() == m.spec_len(),
{
    let n = m.len();
    let mut out: AssocMap<bool> = AssocMap::new();
    let mut i: usize = 0;
    while i < n
        invariant
            m.wf(),
            n == m.spec_len(),
            i <= n,
            out.wf(),
            out.skeys() == m.skeys().subrange(0, i as int),
            out.svals() == m.svals().subrange(0, i as int),
        decreases n - i,
    {
        let key = m.key_at(i);
        let v = *m.val_at(i);
        proof {
            if out.spec_contains(key@) {
                crate::assoc::lemma_key_index_found(out.skeys(), key@, 0);
                let j = key_index(out.skeys(), key@);
                assert(m.skeys()[j] == m.skeys()[i as int]);
                assert(false);
            }
        }
        out.insert(key.clone(), v);
        proof {
            assert(out.skeys() =~= m.skeys().subrange(0, i + 1));
            assert(out.svals() =~= m.svals().subrange(0, i + 1));
        }
        i = i + 1;
    }
    proof {
        assert(m.skeys().subrange(0, n as int) =~= m.skeys());
        assert(m.svals().subrange(0, n as int) =~= m.svals());
        assert forall|k: Seq<char>| #[trigger] out.spec_contains(k) <==> m.spec_contains(k) by {}
    }
    out
}

/// Copies a member table, key for key.
fn clone_members(m: &AssocMap<MemberRecord>) -> (r: AssocMap<MemberRecord>)
    requires
        m.wf(),
    ensures
        r.wf(),
        r.skeys() == m.skeys(),
        r.svals() == m.svals(),
        forall|k: Seq<char>| #[trigger] r.spec_contains(k) <==> m.spec_contains(k),
        r.spec_len() == m.spec_len(),
{
    let n = m.len();
    let mut out: AssocMap<MemberRecord> = AssocMap::new();
    let mut i: usize = 0;
    while i < n
        invariant
            m.wf(),
            n == m.spec_len(),
            i <= n,
            out.wf(),
            out.skeys() == m.skeys().subrange(0, i as int),
            out.svals() == m.svals().subrange(0, i as int),
        decreases n - i,
    {
        let key = m.key_at(i);
        let v = m.val_at(i);
        let copied = MemberRecord {
            label: match &v.label {
                Some(l) => Some(l.clone()),
                None => None,
            },
            added_at: v.added_at.clone(),
        };
        let ghost pre = out;
        proof {
            if out.spec_contains(key@) {
                crate::assoc::lemma_key_index_found(out.skeys(), key@, 0);
                let j = key_index(out.skeys(), key@);
                assert(m.skeys()[j] == m.skeys()[i as int]);
                assert(false);
            }
        }
        proof {
            assert(copied == m.svals()[i as int]);
        }
        out.insert(key.clone(), copied);
        proof {
            assert(out.skeys() =~= m.skeys().subrange(0, i + 1));
            assert(out.svals() =~= m.svals().subrange(0, i + 1));
        }
        i = i + 1;
    }
    proof {
        assert(m.skeys().subrange(0, n as int) =~= m.skeys());
        assert(m.svals().subrange(0, n as int) =~= m.svals());
        assert forall|k: Seq<char>| #[trigger] out.spec_contains(k) <==> m.spec_contains(k) by {}
    }
    out
}

} // verus!
