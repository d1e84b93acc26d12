//! One owner's record: a balance and a table of allowances keyed by the hash
//! of the escrow account's identifier.
use vstd::prelude::*;

use crate::host::{hash_account_id, id_hash};
use crate::token::TokenError;

verus! {

/// Whether two byte vectors hold the same bytes.
pub fn bytes_eq(a: &Vec<u8>, b: &Vec<u8>) -> (r: bool)
    ensures
        r == (a@ == b@),
{
    if a.len() != b.len() {
        return false;
    }
    let mut i: usize = 0;
    while i < a.len()
        invariant
            a@.len() == b@.len(),
            0 <= i <= a@.len(),
            forall|j: int| 0 <= j < i ==> a@[j] == b@[j],
        decreases a@.len() - i,
    {
        if a[i] != b[i] {
            return false;
        }
        i = i + 1;
    }
    proof {
        assert(a@ =~= b@);
    }
    true
}

/// The keys of an allowance table are pairwise distinct.
pub open spec fn allowance_keys_unique(t: Seq<(Vec<u8>, u128)>) -> bool {
    forall|i: int, j: int| 0 <= i < j < t.len() ==> t[i].0@ != t[j].0@
}

/// Whether the allowance table holds an entry for key `k`.
pub open spec fn has_allowance_entry(t: Seq<(Vec<u8>, u128)>, k: Seq<u8>) -> bool {
    exists|i: int| 0 <= i < t.len() && t[i].0@ == k
}

/// The allowance stored under key `k`, or 0 where there is no entry.
pub open spec fn allowance_in(t: Seq<(Vec<u8>, u128)>, k: Seq<u8>) -> u128 {
    if has_allowance_entry(t, k) {
        t[choose|i: int| 0 <= i < t.len() && t[i].0@ == k].1
    } else {
        0
    }
}

/// Balance and allowances of one account.
pub struct Account {
    /// Current account balance.
    pub balance: u128,
    /// Escrow account hash to the amount that escrow may spend on behalf of
    /// the owner. Only positive amounts are stored.
    pub allowances: Vec<(Vec<u8>, u128)>,
}

impl Account {
    /// Keys are distinct and no entry holds a zero allowance.
    pub open spec fn wf(&self) -> bool {
        &&& allowance_keys_unique(self.allowances@)
        &&& forall|i: int| 0 <= i < self.allowances@.len() ==> self.allowances@[i].1 > 0
    }

    /// The allowance of the escrow account whose identifier hashes to `k`.
    pub open spec fn allowance_of(&self, k: Seq<u8>) -> u128 {
        allowance_in(self.allowances@, k)
    }

    /// Whether the table holds an entry for the escrow key `k`.
    pub open spec fn has_entry(&self, k: Seq<u8>) -> bool {
        has_allowance_entry(self.allowances@, k)
    }

    /// An account with zero balance and no allowances.
    pub fn new() -> (r: Account)
        ensures
            r.wf(),
            r.balance == 0,
            r.allowances@.len() == 0,
    {
        Account { balance: 0, allowances: Vec::new() }
    }

    /// Whether the table is well formed: distinct keys, no zero allowance.
    pub fn is_well_formed(&self) -> (r: bool)
        ensures
            r == self.wf(),
    {
        let n = self.allowances.len();
        let mut i: usize = 0;
        while i < n
            invariant
                n == self.allowances@.len(),
                0 <= i <= n,
                forall|a: int| 0 <= a < i ==> self.allowances@[a].1 > 0,
                forall|a: int, b: int| 0 <= a < b < i ==> self.allowances@[a].0@ != self.allowances@[b].0@,
            decreases n - i,
        {
            if self.allowances[i].1 == 0 {
                return false;
            }
            let mut j: usize = 0;
            while j < i
                invariant
                    n == self.allowances@.len(),
                    0 <= j <= i < n,
                    forall|a: int| 0 <= a < j ==> self.allowances@[a].0@ != self.allowances@[i as int].0@,
                decreases i - j,
            {
                if bytes_eq(&self.allowances[j].0, &self.allowances[i].0) {
                    return false;
                }
                j = j + 1;
            }
            i = i + 1;
        }
        true
    }

    /// Position of the entry for key `k`, if any.
    fn find_allowance(&self, k: &Vec<u8>) -> (r: Option<usize>)
        ensures
            match r {
                Some(i) => i < self.allowances@.len() && self.allowances@[i as int].0@ == k@,
                None => !has_allowance_entry(self.allowances@, k@),
            },
    {
        let mut i: usize = 0;
        while i < self.allowances.len()
            invariant
                0 <= i <= self.allowances@.len(),
                forall|j: int| 0 <= j < i ==> self.allowances@[j].0@ != k@,
            decreases self.allowances@.len() - i,
        {
            if bytes_eq(&self.allowances[i].0, k) {
                return Some(i);
            }
            i = i + 1;
        }
        None
    }

    /// Sets the allowance stored under the escrow key `key` to `allowance`;
    /// a zero allowance removes the entry.
    pub(crate) fn set_allowance_by_key(&mut self, key: Vec<u8>, allowance: u128)
        requires
            old(self).wf(),
        ensures
            final(self).wf(),
            final(self).balance == old(self).balance,
            forall|k: Seq<u8>| #[trigger]
                final(self).allowance_of(k) == if k == key@ {
                    allowance
                } else {
                    old(self).allowance_of(k)
                },
            allowance == 0 ==> !final(self).has_entry(key@),
    {
        let ghost kv = key@;
        let ghost t0 = self.allowances@;
        match self.find_allowance(&key) {
            Some(i) => {
                if allowance > 0 {
                    self.allowances.set(i, (key, allowance));
                    proof {
                        let t1 = self.allowances@;
                        assert forall|k: Seq<u8>| #[trigger]
                            allowance_in(t1, k) == if k == kv { allowance } else {
                                allowance_in(t0, k)
                            } by {
                            if k == kv {
                                assert(t1[i as int].0@ == k);
                            } else if has_allowance_entry(t0, k) {
                                let j = choose|j: int| 0 <= j < t0.len() && t0[j].0@ == k;
                                assert(t1[j].0@ == k);
                            } else {
                                assert(!has_allowance_entry(t1, k)) by {
                                    if has_allowance_entry(t1, k) {
                                        let j = choose|j: int| 0 <= j < t1.len() && t1[j].0@ == k;
                                        assert(t0[j].0@ == k);
                                    }
                                }
                            }
                        }
                    }
                } else {
                    self.allowances.remove(i);
                    proof {
                        let t1 = self.allowances@;
                        assert(t1 =~= t0.remove(i as int));
                        assert forall|k: Seq<u8>| #[trigger]
                            allowance_in(t1, k) == if k == kv { 0 } else {
                                allowance_in(t0, k)
                            } by {
                            if has_allowance_entry(t1, k) {
                                let j = choose|j: int| 0 <= j < t1.len() && t1[j].0@ == k;
                                if j < i {
                                    assert(t0[j].0@ == k);
                                } else {
                                    assert(t0[j + 1].0@ == k);
                                }
                            } else if has_allowance_entry(t0, k) && k != kv {
                                let j = choose|j: int| 0 <= j < t0.len() && t0[j].0@ == k;
                                if j < i {
                                    assert(t1[j].0@ == k);
                                } else {
                                    assert(t1[j - 1].0@ == k);
                                }
                            }
                        }
                    }
                }
            },
            None => {
                if allowance > 0 {
                    self.allowances.push((key, allowance));
                    proof {
                        let t1 = self.allowances@;
                        let n = t0.len() as int;
                        assert forall|k: Seq<u8>| #[trigger]
                            allowance_in(t1, k) == if k == kv { allowance } else {
                                allowance_in(t0, k)
                            } by {
                            if k == kv {
                                assert(t1[n].0@ == k);
                            } else if has_allowance_entry(t0, k) {
                                let j = choose|j: int| 0 <= j < t0.len() && t0[j].0@ == k;
                                assert(t1[j].0@ == k);
                            } else {
                                assert(!has_allowance_entry(t1, k)) by {
                                    if has_allowance_entry(t1, k) {
                                        let j = choose|j: int| 0 <= j < t1.len() && t1[j].0@ == k;
                                        assert(t0[j].0@ == k);
                                    }
                                }
                            }
                        }
                    }
                }
            },
        }
    }

    /// The allowance stored under the escrow key `key`, 0 where there is none.
    pub(crate) fn allowance_by_key(&self, key: &Vec<u8>) -> (r: u128)
        requires
            self.wf(),
        ensures
            r == self.allowance_of(key@),
    {
        match self.find_allowance(key) {
            Some(i) => {
                proof {
                    let t = self.allowances@;
                    let j = choose|j: int| 0 <= j < t.len() && t[j].0@ == key@;
                    assert(j == i);
                }
                self.allowances[i].1
            },
            None => 0,
        }
    }

    /// Sets the allowance of `escrow_account_id` to `allowance`; a zero
    /// allowance removes the entry. Fails, changing nothing, where the host
    /// cannot hash the identifier.
    pub fn set_allowance(&mut self, escrow_account_id: &String, allowance: u128) -> (r: Result<(), TokenError>)
        requires
            old(self).wf(),
        ensures
            final(self).wf(),
            r is Err ==> r == Err::<(), TokenError>(TokenError::HostUnavailable) && *final(self) == *old(self),
            r is Ok ==> {
                &&& final(self).balance == old(self).balance
                &&& forall|k: Seq<u8>| #[trigger]
                    final(self).allowance_of(k) == if k == id_hash(escrow_account_id@) {
                        allowance
                    } else {
                        old(self).allowance_of(k)
                    }
                &&& allowance == 0 ==> !final(self).has_entry(id_hash(escrow_account_id@))
            },
    {
        match hash_account_id(escrow_account_id) {
            Some(key) => {
                self.set_allowance_by_key(key, allowance);
                Ok(())
            },
            None => Err(TokenError::HostUnavailable),
        }
    }

    /// The allowance of `escrow_account_id`, 0 where none was set. Fails where
    /// the host cannot hash the identifier.
    pub fn get_allowance(&self, escrow_account_id: &String) -> (r: Result<u128, TokenError>)
        requires
            self.wf(),
        ensures
            r is Err ==> r == Err::<u128, TokenError>(TokenError::HostUnavailable),
            r matches Ok(v) ==> v == self.allowance_of(id_hash(escrow_account_id@)),
    {
        match hash_account_id(escrow_account_id) {
            Some(key) => Ok(self.allowance_by_key(&key)),
            None => Err(TokenError::HostUnavailable),
        }
    }
}

} // verus!
