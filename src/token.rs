//! The ledger: account storage, transfers, allowances and the two-phase mint.
use vstd::prelude::*;

use crate::account::Account;
use crate::account::bytes_eq;
use crate::host::{hash_account_id, id_hash, is_valid_id, valid_account_id};

verus! {

/// Why a ledger operation was refused. A refused operation changes nothing.
#[derive(Clone, Copy, Debug, PartialEq, Eq, Structural)]
pub enum TokenError {
    /// The owner's account identifier is malformed.
    InvalidOwnerId,
    /// The recipient's account identifier is malformed.
    InvalidNewOwnerId,
    /// The escrow account identifier is malformed.
    InvalidEscrowId,
    /// The ledger has already been initialized.
    AlreadyInitialized,
    /// A transfer of zero tokens.
    ZeroAmount,
    /// The owner's balance is below the amount.
    NotEnoughBalance,
    /// The caller's allowance on the owner's account is below the amount.
    NotEnoughAllowance,
    /// An account tried to set an allowance for itself.
    SelfAllowance,
    /// The completion of a mint was called by another account than the
    /// ledger itself.
    NotSelfCall,
    /// The prover rejected the proof of a mint.
    VerificationFailed,
    /// The total supply would exceed the largest 128-bit amount.
    Overflow,
    /// No host is at hand to hash an account identifier.
    HostUnavailable,
}

/// The keys of the account store are pairwise distinct.
pub open spec fn keys_unique(s: Seq<(Vec<u8>, Account)>) -> bool {
    forall|i: int, j: int| 0 <= i < j < s.len() ==> s[i].0@ != s[j].0@
}

/// Whether the store holds a record under key `k`.
pub open spec fn has_account(s: Seq<(Vec<u8>, Account)>, k: Seq<u8>) -> bool {
    exists|i: int| 0 <= i < s.len() && s[i].0@ == k
}

/// The position of the record under key `k`, where there is one.
pub open spec fn account_index(s: Seq<(Vec<u8>, Account)>, k: Seq<u8>) -> int {
    choose|i: int| 0 <= i < s.len() && s[i].0@ == k
}

/// The balance stored under key `k`; an absent record has balance 0.
pub open spec fn balance_in(s: Seq<(Vec<u8>, Account)>, k: Seq<u8>) -> u128 {
    if has_account(s, k) {
        s[account_index(s, k)].1.balance
    } else {
        0
    }
}

/// The allowance of escrow key `e` on the record under key `k`; an absent
/// record has no allowances.
pub open spec fn allowance_in_store(s: Seq<(Vec<u8>, Account)>, k: Seq<u8>, e: Seq<u8>) -> u128 {
    if has_account(s, k) {
        s[account_index(s, k)].1.allowance_of(e)
    } else {
        0
    }
}

/// The sum of all balances in the store.
pub open spec fn sum_balances(s: Seq<(Vec<u8>, Account)>) -> int
    decreases s.len(),
{
    if s.len() == 0 {
        0
    } else {
        sum_balances(s.drop_last()) + s.last().1.balance
    }
}

proof fn lemma_index_of(s: Seq<(Vec<u8>, Account)>, i: int)
    requires
        keys_unique(s),
        0 <= i < s.len(),
    ensures
        has_account(s, s[i].0@),
        account_index(s, s[i].0@) == i,
{
    assert(s[i].0@ == s[i].0@);
}

proof fn lemma_sum_nonneg(s: Seq<(Vec<u8>, Account)>)
    ensures
        sum_balances(s) >= 0,
    decreases s.len(),
{
    if s.len() > 0 {
        lemma_sum_nonneg(s.drop_last());
    }
}

proof fn lemma_sum_push(s: Seq<(Vec<u8>, Account)>, x: (Vec<u8>, Account))
    ensures
        sum_balances(s.push(x)) == sum_balances(s) + x.1.balance,
{
    assert(s.push(x).drop_last() =~= s);
}

proof fn lemma_sum_remove(s: Seq<(Vec<u8>, Account)>, i: int)
    requires
        0 <= i < s.len(),
    ensures
        sum_balances(s.remove(i)) == sum_balances(s) - s[i].1.balance,
    decreases s.len(),
{
    if i == s.len() - 1 {
        assert(s.remove(i) =~= s.drop_last());
    } else {
        lemma_sum_remove(s.drop_last(), i);
        assert(s.remove(i).drop_last() =~= s.drop_last().remove(i));
    }
}

proof fn lemma_sum_prefix(s: Seq<(Vec<u8>, Account)>, i: int)
    requires
        0 <= i < s.len(),
    ensures
        sum_balances(s.subrange(0, i + 1)) == sum_balances(s.subrange(0, i)) + s[i].1.balance,
{
    assert(s.subrange(0, i + 1).drop_last() =~= s.subrange(0, i));
}

proof fn lemma_prefix_le(s: Seq<(Vec<u8>, Account)>, i: int)
    requires
        0 <= i <= s.len(),
    ensures
        sum_balances(s.subrange(0, i)) <= sum_balances(s),
    decreases s.len(),
{
    if i == s.len() {
        assert(s.subrange(0, i) =~= s);
    } else {
        lemma_prefix_le(s.drop_last(), i);
        assert(s.drop_last().subrange(0, i) =~= s.subrange(0, i));
    }
}

/// Removing the record at `i` keeps every other record where a lookup finds it.
proof fn lemma_remove_keeps(s: Seq<(Vec<u8>, Account)>, i: int, k: Seq<u8>)
    requires
        keys_unique(s),
        0 <= i < s.len(),
    ensures
        keys_unique(s.remove(i)),
        k != s[i].0@ ==> has_account(s.remove(i), k) == has_account(s, k),
        k != s[i].0@ && has_account(s, k) ==> s.remove(i)[account_index(s.remove(i), k)] == s[account_index(s, k)],
        !has_account(s.remove(i), s[i].0@),
{
    let t = s.remove(i);
    assert forall|a: int, b: int| 0 <= a < b < t.len() implies t[a].0@ != t[b].0@ by {
        let a2 = if a < i { a } else { a + 1 };
        let b2 = if b < i { b } else { b + 1 };
        assert(t[a] == s[a2] && t[b] == s[b2]);
    }
    if k != s[i].0@ && has_account(t, k) {
        let j = choose|j: int| 0 <= j < t.len() && t[j].0@ == k;
        let j2 = if j < i { j } else { j + 1 };
        assert(t[j] == s[j2]);
        lemma_index_of(t, j);
        lemma_index_of(s, j2);
    }
    if k != s[i].0@ && has_account(s, k) {
        let j = choose|j: int| 0 <= j < s.len() && s[j].0@ == k;
        let j2 = if j < i { j } else { j - 1 };
        assert(t[j2] == s[j]);
    }
    if has_account(t, s[i].0@) {
        let j = choose|j: int| 0 <= j < t.len() && t[j].0@ == s[i].0@;
        let j2 = if j < i { j } else { j + 1 };
        assert(t[j] == s[j2]);
    }
}

/// Appending a record under a fresh key keeps every other record where a
/// lookup finds it, and makes the new one found under its key.
proof fn lemma_push_keeps(s: Seq<(Vec<u8>, Account)>, x: (Vec<u8>, Account), k: Seq<u8>)
    requires
        keys_unique(s),
        !has_account(s, x.0@),
    ensures
        keys_unique(s.push(x)),
        has_account(s.push(x), x.0@),
        s.push(x)[account_index(s.push(x), x.0@)] == x,
        k != x.0@ ==> has_account(s.push(x), k) == has_account(s, k),
        k != x.0@ && has_account(s, k) ==> s.push(x)[account_index(s.push(x), k)] == s[account_index(s, k)],
{
    let t = s.push(x);
    let n = s.len() as int;
    assert forall|a: int, b: int| 0 <= a < b < t.len() implies t[a].0@ != t[b].0@ by {
        if b == n {
            assert(t[a] == s[a]);
        } else {
            assert(t[a] == s[a] && t[b] == s[b]);
        }
    }
    lemma_index_of(t, n);
    if k != x.0@ && has_account(t, k) {
        let j = choose|j: int| 0 <= j < t.len() && t[j].0@ == k;
        assert(t[j] == s[j]);
        lemma_index_of(t, j);
        lemma_index_of(s, j);
    }
    if k != x.0@ && has_account(s, k) {
        let j = choose|j: int| 0 <= j < s.len() && s[j].0@ == k;
        assert(t[j] == s[j]);
    }
}

/// The interface of the external prover service that checks that a log
/// entry was included in a block of the foreign chain.
pub trait Prover {
    fn verify_log_entry(
        &self,
        log_index: u64,
        log_entry_data: Vec<u8>,
        receipt_index: u64,
        receipt_data: Vec<u8>,
        header_data: Vec<u8>,
        proof: Vec<Vec<u8>>,
        skip_bridge_call: bool,
    ) -> bool;
}

/// The opaque evidence of a lock event on the foreign chain, passed to the
/// prover unchanged.
pub struct Proof {
    pub log_index: u64,
    pub log_entry_data: Vec<u8>,
    pub receipt_index: u64,
    pub receipt_data: Vec<u8>,
    pub header_data: Vec<u8>,
    pub proof: Vec<Vec<u8>>,
}

/// The verification request of a mint and the completion chained to it:
/// the host asks `prover_account` to check the proof, then calls
/// `finish_mint` on `callback_account` with the answer.
pub struct MintRequest {
    /// The prover service to ask.
    pub prover_account: String,
    /// The proof, handed over unchanged.
    pub proof: Proof,
    /// Whether the prover may skip the real check.
    pub skip_bridge_call: bool,
    /// Tokens of the host attached to the verification.
    pub verify_deposit: u128,
    /// Gas given to the verification.
    pub verify_gas: u64,
    /// The account on which the completion is called: the ledger itself.
    pub callback_account: String,
    /// Who is credited once the proof is confirmed.
    pub new_owner_id: String,
    /// How much is credited once the proof is confirmed.
    pub amount: u128,
    /// Tokens of the host attached to the completion.
    pub callback_deposit: u128,
    /// Gas given to the completion.
    pub callback_gas: u64,
}

/// The ledger of one fungible token.
pub struct FungibleToken {
    /// Hash of the account identifier to the account's record.
    pub accounts: Vec<(Vec<u8>, Account)>,
    /// Total supply of the token.
    pub total_supply: u128,
    /// The account of the prover that checks proofs of locks.
    pub prover_account: String,
    /// Whether proofs are really checked; `false` only for tests and
    /// diagnostics.
    pub verify_ethash: bool,
}

impl FungibleToken {
    /// Keys are distinct, every record is well formed, and the balances add
    /// up to the total supply.
    pub open spec fn wf(&self) -> bool {
        &&& keys_unique(self.accounts@)
        &&& forall|i: int| 0 <= i < self.accounts@.len() ==> (#[trigger] self.accounts@[i]).1.wf()
        &&& sum_balances(self.accounts@) == self.total_supply
    }

    /// The balance of the account `id`.
    pub open spec fn balance_of(&self, id: Seq<char>) -> u128 {
        balance_in(self.accounts@, id_hash(id))
    }

    /// The allowance of `escrow` on the account of `owner`.
    pub open spec fn allowance_of(&self, owner: Seq<char>, escrow: Seq<char>) -> u128 {
        allowance_in_store(self.accounts@, id_hash(owner), id_hash(escrow))
    }

    /// `self` and `other` differ at most in the records under `key`, and
    /// hold the same total supply and prover settings.
    pub open spec fn same_except(&self, other: &FungibleToken, key: Seq<u8>) -> bool {
        &&& self.total_supply == other.total_supply
        &&& self.prover_account@ == other.prover_account@
        &&& self.verify_ethash == other.verify_ethash
        &&& forall|k: Seq<u8>| k != key ==> #[trigger] balance_in(self.accounts@, k) == balance_in(other.accounts@, k)
        &&& forall|k: Seq<u8>, e: Seq<u8>| k != key ==> #[trigger] allowance_in_store(self.accounts@, k, e) == allowance_in_store(other.accounts@, k, e)
    }

    /// Whether the ledger is well formed: distinct keys, well-formed
    /// records, and balances that add up to the total supply.
    pub fn is_well_formed(&self) -> (r: bool)
        ensures
            r == self.wf(),
    {
        let n = self.accounts.len();
        let mut sum: u128 = 0;
        let mut i: usize = 0;
        while i < n
            invariant
                n == self.accounts@.len(),
                0 <= i <= n,
                sum == sum_balances(self.accounts@.subrange(0, i as int)),
                forall|a: int| 0 <= a < i ==> (#[trigger] self.accounts@[a]).1.wf(),
                forall|a: int, b: int| 0 <= a < b < i ==> self.accounts@[a].0@ != self.accounts@[b].0@,
            decreases n - i,
        {
            if !self.accounts[i].1.is_well_formed() {
                return false;
            }
            let mut j: usize = 0;
            while j < i
                invariant
                    n == self.accounts@.len(),
                    0 <= j <= i < n,
                    forall|a: int| 0 <= a < j ==> self.accounts@[a].0@ != self.accounts@[i as int].0@,
                decreases i - j,
            {
                if bytes_eq(&self.accounts[j].0, &self.accounts[i].0) {
                    return false;
                }
                j = j + 1;
            }
            proof {
                lemma_sum_prefix(self.accounts@, i as int);
            }
            sum = match sum.checked_add(self.accounts[i].1.balance) {
                Some(t) => t,
                None => {
                    proof {
                        lemma_prefix_le(self.accounts@, i as int + 1);
                    }
                    return false;
                },
            };
            i = i + 1;
        }
        proof {
            assert(self.accounts@.subrange(0, n as int) =~= self.accounts@);
        }
        sum == self.total_supply
    }

    /// Position of the record under key `k`, if any.
    fn find_account(&self, k: &Vec<u8>) -> (r: Option<usize>)
        requires
            keys_unique(self.accounts@),
        ensures
            match r {
                Some(i) => i < self.accounts@.len() && self.accounts@[i as int].0@ == k@
                    && account_index(self.accounts@, k@) == i,
                None => !has_account(self.accounts@, k@),
            },
    {
        let mut i: usize = 0;
        while i < self.accounts.len()
            invariant
                keys_unique(self.accounts@),
                0 <= i <= self.accounts@.len(),
                forall|j: int| 0 <= j < i ==> self.accounts@[j].0@ != k@,
            decreases self.accounts@.len() - i,
        {
            if bytes_eq(&self.accounts[i].0, k) {
                proof {
                    lemma_index_of(self.accounts@, i as int);
                }
                return Some(i);
            }
            i = i + 1;
        }
        None
    }

    /// Takes the record under `k` out of the store; an absent record is read
    /// as an empty account.
    fn take_account(&mut self, k: &Vec<u8>) -> (r: Account)
        requires
            keys_unique(old(self).accounts@),
            forall|i: int| 0 <= i < old(self).accounts@.len() ==> (#[trigger] old(self).accounts@[i]).1.wf(),
        ensures
            r.wf(),
            r.balance == balance_in(old(self).accounts@, k@),
            forall|e: Seq<u8>| #[trigger] r.allowance_of(e) == allowance_in_store(old(self).accounts@, k@, e),
            keys_unique(final(self).accounts@),
            forall|i: int| 0 <= i < final(self).accounts@.len() ==> (#[trigger] final(self).accounts@[i]).1.wf(),
            !has_account(final(self).accounts@, k@),
            sum_balances(final(self).accounts@) == sum_balances(old(self).accounts@) - r.balance,
            final(self).same_except(old(self), k@),
    {
        match self.find_account(k) {
            Some(i) => {
                let ghost s = self.accounts@;
                let (_, a) = self.accounts.remove(i);
                proof {
                    let t = self.accounts@;
                    assert(t =~= s.remove(i as int));
                    lemma_sum_remove(s, i as int);
                    lemma_remove_keeps(s, i as int, seq![]);
                    assert forall|j: int| 0 <= j < t.len() implies (#[trigger] t[j]).1.wf() by {
                        if j < i {
                            assert(t[j] == s[j]);
                        } else {
                            assert(t[j] == s[j + 1]);
                        }
                    }
                    assert forall|kk: Seq<u8>| kk != k@ implies #[trigger] balance_in(t, kk) == balance_in(s, kk) by {
                        lemma_remove_keeps(s, i as int, kk);
                    }
                    assert forall|kk: Seq<u8>, e: Seq<u8>| kk != k@ implies #[trigger] allowance_in_store(t, kk, e) == allowance_in_store(s, kk, e) by {
                        lemma_remove_keeps(s, i as int, kk);
                    }
                }
                a
            },
            None => Account::new(),
        }
    }

    /// Stores `a` under the key `k`, which holds no record.
    fn put_account(&mut self, k: Vec<u8>, a: Account)
        requires
            keys_unique(old(self).accounts@),
            forall|i: int| 0 <= i < old(self).accounts@.len() ==> (#[trigger] old(self).accounts@[i]).1.wf(),
            !has_account(old(self).accounts@, k@),
            a.wf(),
        ensures
            keys_unique(final(self).accounts@),
            forall|i: int| 0 <= i < final(self).accounts@.len() ==> (#[trigger] final(self).accounts@[i]).1.wf(),
            has_account(final(self).accounts@, k@),
            final(self).accounts@[account_index(final(self).accounts@, k@)].1 == a,
            balance_in(final(self).accounts@, k@) == a.balance,
            forall|e: Seq<u8>| #[trigger] allowance_in_store(final(self).accounts@, k@, e) == a.allowance_of(e),
            sum_balances(final(self).accounts@) == sum_balances(old(self).accounts@) + a.balance,
            final(self).same_except(old(self), k@),
    {
        let ghost s = self.accounts@;
        let ghost kv = k@;
        let ghost x = (k, a);
        self.accounts.push((k, a));
        proof {
            let t = self.accounts@;
            assert(t == s.push(x));
            lemma_sum_push(s, x);
            lemma_push_keeps(s, x, seq![]);
            assert forall|j: int| 0 <= j < t.len() implies (#[trigger] t[j]).1.wf() by {
                if j < s.len() {
                    assert(t[j] == s[j]);
                }
            }
            assert forall|kk: Seq<u8>| kk != kv implies #[trigger] balance_in(t, kk) == balance_in(s, kk) by {
                lemma_push_keeps(s, x, kk);
            }
            assert forall|kk: Seq<u8>, e: Seq<u8>| kk != kv implies #[trigger] allowance_in_store(t, kk, e) == allowance_in_store(s, kk, e) by {
                lemma_push_keeps(s, x, kk);
            }
        }
    }

    /// The balance stored under key `k`.
    pub fn balance_by_key(&self, k: &Vec<u8>) -> (r: u128)
        requires
            keys_unique(self.accounts@),
        ensures
            r == balance_in(self.accounts@, k@),
    {
        match self.find_account(k) {
            Some(i) => self.accounts[i].1.balance,
            None => 0,
        }
    }

    /// The allowance of escrow key `e` on the record under key `k`.
    pub fn allowance_by_key(&self, k: &Vec<u8>, e: &Vec<u8>) -> (r: u128)
        requires
            self.wf(),
        ensures
            r == allowance_in_store(self.accounts@, k@, e@),
    {
        match self.find_account(k) {
            Some(i) => {
                assert(self.accounts@[i as int].1.wf());
                self.accounts[i].1.allowance_by_key(e)
            },
            None => 0,
        }
    }

    /// Why a transfer of `amount` from `owner` to `new_owner`, called by
    /// `caller`, is refused, or `None` where it goes through.
    pub open spec fn transfer_error(
        &self,
        owner: Seq<char>,
        new_owner: Seq<char>,
        amount: u128,
        caller: Seq<char>,
    ) -> Option<TokenError> {
        if !is_valid_id(owner) {
            Some(TokenError::InvalidOwnerId)
        } else if !is_valid_id(new_owner) {
            Some(TokenError::InvalidNewOwnerId)
        } else if amount == 0 {
            Some(TokenError::ZeroAmount)
        } else if self.balance_of(owner) < amount {
            Some(TokenError::NotEnoughBalance)
        } else if caller != owner && self.allowance_of(owner, caller) < amount {
            Some(TokenError::NotEnoughAllowance)
        } else {
            None
        }
    }

    /// `self` is `old` after a transfer of `amount` from `owner` to
    /// `new_owner` called by `caller`: the owner's balance goes down by
    /// `amount`, the recipient's goes up by it, and a caller other than the
    /// owner spends as much of its allowance.
    pub open spec fn transferred(
        &self,
        old: &FungibleToken,
        owner: Seq<char>,
        new_owner: Seq<char>,
        amount: u128,
        caller: Seq<char>,
    ) -> bool {
        self.transferred_keys(old, id_hash(owner), id_hash(new_owner), id_hash(caller), amount, caller != owner)
    }

    /// `self` is `old` after a transfer of `amount` from the record under
    /// `ok` to the one under `nk`: the first balance goes down by `amount`,
    /// the second goes up by it, and where `delegated` the allowance of
    /// escrow key `ek` on `ok` goes down by it.
    pub open spec fn transferred_keys(
        &self,
        old: &FungibleToken,
        ok: Seq<u8>,
        nk: Seq<u8>,
        ek: Seq<u8>,
        amount: u128,
        delegated: bool,
    ) -> bool {
        &&& self.total_supply == old.total_supply
        &&& self.prover_account@ == old.prover_account@
        &&& self.verify_ethash == old.verify_ethash
        &&& forall|k: Seq<u8>| #[trigger] balance_in(self.accounts@, k) == balance_in(old.accounts@, k)
            - (if k == ok { amount as int } else { 0 }) + (if k == nk { amount as int } else { 0 })
        &&& forall|k: Seq<u8>, e: Seq<u8>| #[trigger] allowance_in_store(self.accounts@, k, e) as int
            == if delegated && k == ok && e == ek {
                allowance_in_store(old.accounts@, k, e) - amount
            } else {
                allowance_in_store(old.accounts@, k, e) as int
            }
    }

    /// Why a transfer of `amount` from the record under `ok` is refused once
    /// the identifiers are checked, or `None` where it goes through.
    pub open spec fn transfer_key_error(&self, ok: Seq<u8>, ek: Seq<u8>, amount: u128, delegated: bool) -> Option<
        TokenError,
    > {
        if balance_in(self.accounts@, ok) < amount {
            Some(TokenError::NotEnoughBalance)
        } else if delegated && allowance_in_store(self.accounts@, ok, ek) < amount {
            Some(TokenError::NotEnoughAllowance)
        } else {
            None
        }
    }

    /// Transfers `amount` tokens from the record under `owner_key` to the one
    /// under `new_key`. Where `delegated`, the escrow under `escrow_key`
    /// spends as much of its allowance on the owner's record.
    pub fn transfer_by_keys(
        &mut self,
        owner_key: Vec<u8>,
        new_key: Vec<u8>,
        escrow_key: Vec<u8>,
        amount: u128,
        delegated: bool,
    ) -> (r: Result<(), TokenError>)
        requires
            old(self).wf(),
        ensures
            final(self).wf(),
            match old(self).transfer_key_error(owner_key@, escrow_key@, amount, delegated) {
                Some(e) => r == Err::<(), TokenError>(e) && *final(self) == *old(self),
                None => r is Ok && final(self).transferred_keys(
                    old(self),
                    owner_key@,
                    new_key@,
                    escrow_key@,
                    amount,
                    delegated,
                ),
            },
    {
        let balance = self.balance_by_key(&owner_key);
        if balance < amount {
            return Err(TokenError::NotEnoughBalance);
        }
        let mut allowance: u128 = 0;
        if delegated {
            allowance = self.allowance_by_key(&owner_key, &escrow_key);
            if allowance < amount {
                return Err(TokenError::NotEnoughAllowance);
            }
        }
        let ghost s0 = *self;
        let ghost ok = owner_key@;
        let ghost ek = escrow_key@;

        let mut account = self.take_account(&owner_key);
        let ghost s1 = *self;
        let ghost a0 = account;
        account.balance = account.balance - amount;
        if delegated {
            account.set_allowance_by_key(escrow_key, allowance - amount);
        }
        let ghost a1 = account;
        self.put_account(owner_key, account);
        let ghost s2 = *self;

        let ghost nk = new_key@;
        let mut new_account = self.take_account(&new_key);
        let ghost b0 = new_account;
        proof {
            lemma_sum_nonneg(self.accounts@);
        }
        new_account.balance = new_account.balance + amount;
        self.put_account(new_key, new_account);
        proof {
            assert forall|k: Seq<u8>| #[trigger] balance_in(self.accounts@, k) == balance_in(s0.accounts@, k)
                - (if k == ok { amount as int } else { 0 }) + (if k == nk { amount as int } else { 0 }) by {
                if k != nk {
                    assert(balance_in(self.accounts@, k) == balance_in(s2.accounts@, k));
                }
            }
            assert forall|k: Seq<u8>, e: Seq<u8>| #[trigger] allowance_in_store(self.accounts@, k, e) as int
                == if delegated && k == ok && e == ek {
                    allowance_in_store(s0.accounts@, k, e) - amount
                } else {
                    allowance_in_store(s0.accounts@, k, e) as int
                } by {
                if k == nk {
                    assert(b0.allowance_of(e) == allowance_in_store(s2.accounts@, k, e));
                } else {
                    assert(allowance_in_store(self.accounts@, k, e) == allowance_in_store(s2.accounts@, k, e));
                }
                if k == ok {
                    assert(allowance_in_store(s2.accounts@, k, e) == a1.allowance_of(e));
                    assert(a0.allowance_of(e) == allowance_in_store(s0.accounts@, k, e));
                } else {
                    assert(allowance_in_store(s2.accounts@, k, e) == allowance_in_store(s1.accounts@, k, e));
                }
            }
        }
        Ok(())
    }

    /// Transfers `amount` tokens from `owner_id` to `new_owner_id` on behalf
    /// of `predecessor_account_id`, the caller. A caller other than the owner
    /// spends its allowance on the owner's account.
    pub fn transfer_from(
        &mut self,
        owner_id: String,
        new_owner_id: String,
        amount: u128,
        predecessor_account_id: String,
    ) -> (r: Result<(), TokenError>)
        requires
            old(self).wf(),
        ensures
            final(self).wf(),
            r == Err::<(), TokenError>(TokenError::HostUnavailable) ==> {
                &&& *final(self) == *old(self)
                &&& is_valid_id(owner_id@) && is_valid_id(new_owner_id@) && amount != 0
            },
            r != Err::<(), TokenError>(TokenError::HostUnavailable) ==> match old(self).transfer_error(
                owner_id@,
                new_owner_id@,
                amount,
                predecessor_account_id@,
            ) {
                Some(e) => r == Err::<(), TokenError>(e) && *final(self) == *old(self),
                None => r is Ok && final(self).transferred(
                    old(self),
                    owner_id@,
                    new_owner_id@,
                    amount,
                    predecessor_account_id@,
                ),
            },
    {
        if !valid_account_id(&owner_id) {
            return Err(TokenError::InvalidOwnerId);
        }
        if !valid_account_id(&new_owner_id) {
            return Err(TokenError::InvalidNewOwnerId);
        }
        if amount == 0 {
            return Err(TokenError::ZeroAmount);
        }
        let owner_key = match hash_account_id(&owner_id) {
            Some(k) => k,
            None => {
                return Err(TokenError::HostUnavailable);
            },
        };
        let new_key = match hash_account_id(&new_owner_id) {
            Some(k) => k,
            None => {
                return Err(TokenError::HostUnavailable);
            },
        };
        let escrow_key = match hash_account_id(&predecessor_account_id) {
            Some(k) => k,
            None => {
                return Err(TokenError::HostUnavailable);
            },
        };
        let delegated = predecessor_account_id != owner_id;
        self.transfer_by_keys(owner_key, new_key, escrow_key, amount, delegated)
    }

    /// Transfers `amount` tokens from the caller `predecessor_account_id` to
    /// `new_owner_id`: `transfer_from` with the caller as owner.
    pub fn transfer(&mut self, new_owner_id: String, amount: u128, predecessor_account_id: String) -> (r: Result<(), TokenError>)
        requires
            old(self).wf(),
        ensures
            final(self).wf(),
            r == Err::<(), TokenError>(TokenError::HostUnavailable) ==> {
                &&& *final(self) == *old(self)
                &&& is_valid_id(predecessor_account_id@) && is_valid_id(new_owner_id@) && amount != 0
            },
            r != Err::<(), TokenError>(TokenError::HostUnavailable) ==> match old(self).transfer_error(
                predecessor_account_id@,
                new_owner_id@,
                amount,
                predecessor_account_id@,
            ) {
                Some(e) => r == Err::<(), TokenError>(e) && *final(self) == *old(self),
                None => r is Ok && final(self).transferred(
                    old(self),
                    predecessor_account_id@,
                    new_owner_id@,
                    amount,
                    predecessor_account_id@,
                ),
            },
    {
        let owner_id = predecessor_account_id.clone();
        self.transfer_from(owner_id, new_owner_id, amount, predecessor_account_id)
    }

    /// Whether the account of `owner` holds an allowance entry for `escrow`.
    pub open spec fn has_allowance_record(&self, owner: Seq<char>, escrow: Seq<char>) -> bool {
        self.has_allowance_entry_at(id_hash(owner), id_hash(escrow))
    }

    /// Whether the record under `k` holds an allowance entry for escrow key `e`.
    pub open spec fn has_allowance_entry_at(&self, k: Seq<u8>, e: Seq<u8>) -> bool {
        &&& has_account(self.accounts@, k)
        &&& self.accounts@[account_index(self.accounts@, k)].1.has_entry(e)
    }

    /// A ledger whose whole `total_supply` stands on the record under
    /// `owner_key`, with no allowances.
    pub fn with_owner_key(owner_key: Vec<u8>, total_supply: u128, prover_account: String, verify_ethash: bool) -> (ft:
        FungibleToken)
        ensures
            ft.wf(),
            ft.total_supply == total_supply,
            ft.prover_account@ == prover_account@,
            ft.verify_ethash == verify_ethash,
            forall|k: Seq<u8>| #[trigger] balance_in(ft.accounts@, k) == if k == owner_key@ {
                total_supply
            } else {
                0
            },
            forall|k: Seq<u8>, e: Seq<u8>| #[trigger] allowance_in_store(ft.accounts@, k, e) == 0,
    {
        let ghost kv = owner_key@;
        let mut ft = FungibleToken { accounts: Vec::new(), total_supply, prover_account, verify_ethash };
        let mut account = ft.take_account(&owner_key);
        let ghost a0 = account;
        account.balance = total_supply;
        ft.put_account(owner_key, account);
        proof {
            assert forall|k: Seq<u8>| #[trigger] balance_in(ft.accounts@, k) == if k == kv {
                total_supply
            } else {
                0
            } by {
                if k != kv {
                    assert(!has_account(Seq::<(Vec<u8>, Account)>::empty(), k));
                }
            }
            assert forall|k: Seq<u8>, e: Seq<u8>| #[trigger] allowance_in_store(ft.accounts@, k, e) == 0 by {
                assert(!has_account(Seq::<(Vec<u8>, Account)>::empty(), k));
                if k == kv {
                    assert(a0.allowance_of(e) == 0);
                }
            }
        }
        ft
    }

    /// Sets the allowance of escrow key `escrow_key` on the record under
    /// `owner_key`; a zero allowance removes the entry.
    pub fn set_allowance_by_keys(&mut self, owner_key: Vec<u8>, escrow_key: Vec<u8>, allowance: u128)
        requires
            old(self).wf(),
        ensures
            final(self).wf(),
            final(self).total_supply == old(self).total_supply,
            final(self).prover_account@ == old(self).prover_account@,
            final(self).verify_ethash == old(self).verify_ethash,
            forall|k: Seq<u8>| #[trigger] balance_in(final(self).accounts@, k) == balance_in(old(self).accounts@, k),
            forall|k: Seq<u8>, e: Seq<u8>| #[trigger] allowance_in_store(final(self).accounts@, k, e)
                == if k == owner_key@ && e == escrow_key@ {
                    allowance
                } else {
                    allowance_in_store(old(self).accounts@, k, e)
                },
            final(self).has_allowance_entry_at(owner_key@, escrow_key@) == (allowance > 0),
    {
        let ghost s0 = *self;
        let ghost ek = escrow_key@;
        let ghost kv = owner_key@;
        let mut account = self.take_account(&owner_key);
        let ghost a0 = account;
        account.set_allowance_by_key(escrow_key, allowance);
        let ghost a1 = account;
        self.put_account(owner_key, account);
        proof {
            assert forall|k: Seq<u8>, e: Seq<u8>| #[trigger] allowance_in_store(self.accounts@, k, e)
                == if k == kv && e == ek {
                    allowance
                } else {
                    allowance_in_store(s0.accounts@, k, e)
                } by {
                if k == kv {
                    assert(a0.allowance_of(e) == allowance_in_store(s0.accounts@, k, e));
                }
            }
            if allowance > 0 {
                assert(a1.allowance_of(ek) > 0);
            }
        }
    }

    /// Credits `amount` to the record under `key` and to the total supply.
    pub fn credit_by_key(&mut self, key: Vec<u8>, amount: u128)
        requires
            old(self).wf(),
            old(self).total_supply + amount <= u128::MAX,
        ensures
            final(self).wf(),
            final(self).total_supply == old(self).total_supply + amount,
            final(self).prover_account@ == old(self).prover_account@,
            final(self).verify_ethash == old(self).verify_ethash,
            forall|k: Seq<u8>| #[trigger] balance_in(final(self).accounts@, k) == balance_in(old(self).accounts@, k)
                + if k == key@ {
                amount as int
            } else {
                0
            },
            forall|k: Seq<u8>, e: Seq<u8>| #[trigger] allowance_in_store(final(self).accounts@, k, e)
                == allowance_in_store(old(self).accounts@, k, e),
    {
        let ghost s0 = *self;
        let mut account = self.take_account(&key);
        let ghost a0 = account;
        proof {
            lemma_sum_nonneg(self.accounts@);
        }
        account.balance = account.balance + amount;
        self.put_account(key, account);
        self.total_supply = self.total_supply + amount;
        proof {
            assert forall|k: Seq<u8>, e: Seq<u8>| #[trigger] allowance_in_store(self.accounts@, k, e)
                == allowance_in_store(s0.accounts@, k, e) by {
                if k == key@ {
                    assert(a0.allowance_of(e) == allowance_in_store(s0.accounts@, k, e));
                }
            }
        }
    }

    /// Creates the ledger with `total_supply` tokens owned by `owner_id`.
    /// `state_exists` tells whether the host already holds a ledger.
    pub fn new(
        owner_id: String,
        total_supply: u128,
        prover_account: String,
        verify_ethash: bool,
        state_exists: bool,
    ) -> (r: Result<FungibleToken, TokenError>)
        ensures
            !is_valid_id(owner_id@) ==> r == Err::<FungibleToken, TokenError>(TokenError::InvalidOwnerId),
            is_valid_id(owner_id@) && state_exists ==> r == Err::<FungibleToken, TokenError>(
                TokenError::AlreadyInitialized,
            ),
            is_valid_id(owner_id@) && !state_exists ==> match r {
                Err(e) => e == TokenError::HostUnavailable,
                Ok(t) => {
                    &&& t.wf()
                    &&& t.total_supply == total_supply
                    &&& t.prover_account@ == prover_account@
                    &&& t.verify_ethash == verify_ethash
                    &&& forall|k: Seq<u8>| #[trigger] balance_in(t.accounts@, k) == if k == id_hash(owner_id@) {
                        total_supply
                    } else {
                        0
                    }
                    &&& forall|k: Seq<u8>, e: Seq<u8>| #[trigger] allowance_in_store(t.accounts@, k, e) == 0
                },
            },
    {
        if !valid_account_id(&owner_id) {
            return Err(TokenError::InvalidOwnerId);
        }
        if state_exists {
            return Err(TokenError::AlreadyInitialized);
        }
        let key = match hash_account_id(&owner_id) {
            Some(k) => k,
            None => {
                return Err(TokenError::HostUnavailable);
            },
        };
        let ft = FungibleToken::with_owner_key(key, total_supply, prover_account, verify_ethash);
        Ok(ft)
    }

    /// Sets the allowance of `escrow_account_id` on the account of the
    /// caller `predecessor_account_id`; a zero allowance removes the entry.
    pub fn set_allowance(
        &mut self,
        escrow_account_id: String,
        allowance: u128,
        predecessor_account_id: String,
    ) -> (r: Result<(), TokenError>)
        requires
            old(self).wf(),
        ensures
            final(self).wf(),
            !is_valid_id(escrow_account_id@) ==> r == Err::<(), TokenError>(TokenError::InvalidEscrowId)
                && *final(self) == *old(self),
            is_valid_id(escrow_account_id@) && escrow_account_id@ == predecessor_account_id@ ==> r == Err::<
                (),
                TokenError,
            >(TokenError::SelfAllowance) && *final(self) == *old(self),
            is_valid_id(escrow_account_id@) && escrow_account_id@ != predecessor_account_id@ && r is Err ==> r
                == Err::<(), TokenError>(TokenError::HostUnavailable) && *final(self) == *old(self),
            is_valid_id(escrow_account_id@) && escrow_account_id@ != predecessor_account_id@ && r is Ok ==> {
                &&& final(self).total_supply == old(self).total_supply
                &&& final(self).prover_account@ == old(self).prover_account@
                &&& final(self).verify_ethash == old(self).verify_ethash
                &&& forall|k: Seq<u8>| #[trigger] balance_in(final(self).accounts@, k) == balance_in(old(self).accounts@, k)
                &&& forall|k: Seq<u8>, e: Seq<u8>| #[trigger] allowance_in_store(final(self).accounts@, k, e)
                    == if k == id_hash(predecessor_account_id@) && e == id_hash(escrow_account_id@) {
                        allowance
                    } else {
                        allowance_in_store(old(self).accounts@, k, e)
                    }
                &&& final(self).has_allowance_record(predecessor_account_id@, escrow_account_id@) == (allowance > 0)
            },
    {
        if !valid_account_id(&escrow_account_id) {
            return Err(TokenError::InvalidEscrowId);
        }
        if escrow_account_id == predecessor_account_id {
            return Err(TokenError::SelfAllowance);
        }
        let key = match hash_account_id(&predecessor_account_id) {
            Some(k) => k,
            None => {
                return Err(TokenError::HostUnavailable);
            },
        };
        let escrow_key = match hash_account_id(&escrow_account_id) {
            Some(k) => k,
            None => {
                return Err(TokenError::HostUnavailable);
            },
        };
        self.set_allowance_by_keys(key, escrow_key, allowance);
        Ok(())
    }

    /// First phase of a mint: the request that asks the prover to check
    /// `proof` and chains `finish_mint` on `current_account_id`, the ledger
    /// itself. Each call gets a third of `prepaid_gas`. The ledger is not
    /// changed.
    pub fn mint(
        &self,
        new_owner_id: String,
        amount: u128,
        proof: Proof,
        current_account_id: String,
        prepaid_gas: u64,
    ) -> (r: MintRequest)
        ensures
            r.prover_account@ == self.prover_account@,
            r.proof == proof,
            r.skip_bridge_call == !self.verify_ethash,
            r.verify_deposit == 0,
            r.verify_gas == prepaid_gas / 3,
            r.callback_account@ == current_account_id@,
            r.new_owner_id@ == new_owner_id@,
            r.amount == amount,
            r.callback_deposit == 0,
            r.callback_gas == prepaid_gas / 3,
    {
        MintRequest {
            prover_account: self.prover_account.clone(),
            proof,
            skip_bridge_call: !self.verify_ethash,
            verify_deposit: 0,
            verify_gas: prepaid_gas / 3,
            callback_account: current_account_id,
            new_owner_id,
            amount,
            callback_deposit: 0,
            callback_gas: prepaid_gas / 3,
        }
    }

    /// Why the completion of a mint is refused, or `None` where it goes
    /// through.
    pub open spec fn finish_mint_error(
        &self,
        verification_success: bool,
        amount: u128,
        caller: Seq<char>,
        current: Seq<char>,
    ) -> Option<TokenError> {
        if caller != current {
            Some(TokenError::NotSelfCall)
        } else if !verification_success {
            Some(TokenError::VerificationFailed)
        } else if self.total_supply + amount > u128::MAX {
            Some(TokenError::Overflow)
        } else {
            None
        }
    }

    /// Second phase of a mint: once the prover confirmed the proof, credits
    /// `amount` to `new_owner_id` and to the total supply. Only the ledger
    /// itself may call it: `predecessor_account_id` must be
    /// `current_account_id`.
    pub fn finish_mint(
        &mut self,
        verification_success: bool,
        new_owner_id: String,
        amount: u128,
        predecessor_account_id: String,
        current_account_id: String,
    ) -> (r: Result<(), TokenError>)
        requires
            old(self).wf(),
        ensures
            final(self).wf(),
            match old(self).finish_mint_error(
                verification_success,
                amount,
                predecessor_account_id@,
                current_account_id@,
            ) {
                Some(e) => r == Err::<(), TokenError>(e) && *final(self) == *old(self),
                None => r == Err::<(), TokenError>(TokenError::HostUnavailable) && *final(self) == *old(self)
                    || {
                    &&& final(self).total_supply == old(self).total_supply + amount
                    &&& final(self).prover_account@ == old(self).prover_account@
                    &&& final(self).verify_ethash == old(self).verify_ethash
                    &&& forall|k: Seq<u8>| #[trigger] balance_in(final(self).accounts@, k) == balance_in(
                        old(self).accounts@,
                        k,
                    ) + if k == id_hash(new_owner_id@) {
                        amount as int
                    } else {
                        0
                    }
                    &&& forall|k: Seq<u8>, e: Seq<u8>| #[trigger] allowance_in_store(final(self).accounts@, k, e)
                        == allowance_in_store(old(self).accounts@, k, e)
                },
            },
    {
        if predecessor_account_id != current_account_id {
            return Err(TokenError::NotSelfCall);
        }
        if !verification_success {
            return Err(TokenError::VerificationFailed);
        }
        if self.total_supply.checked_add(amount).is_none() {
            return Err(TokenError::Overflow);
        }
        let key = match hash_account_id(&new_owner_id) {
            Some(k) => k,
            None => {
                return Err(TokenError::HostUnavailable);
            },
        };
        self.credit_by_key(key, amount);
        Ok(())
    }

    /// The total supply of the token.
    pub fn get_total_supply(&self) -> (r: u128)
        ensures
            r == self.total_supply,
    {
        self.total_supply
    }

    /// The balance of `owner_id`; an account never seen has balance 0.
    /// Fails where the host cannot hash the identifier.
    pub fn get_balance(&self, owner_id: String) -> (r: Result<u128, TokenError>)
        requires
            self.wf(),
        ensures
            r is Err ==> r == Err::<u128, TokenError>(TokenError::HostUnavailable),
            r matches Ok(v) ==> v == self.balance_of(owner_id@),
    {
        match hash_account_id(&owner_id) {
            Some(key) => Ok(self.balance_by_key(&key)),
            None => Err(TokenError::HostUnavailable),
        }
    }

    /// The current allowance of `escrow_account_id` on the account of
    /// `owner_id`. The value is advisory: it may change before a caller acts
    /// on it.
    pub fn get_allowance(&self, owner_id: String, escrow_account_id: String) -> (r: Result<u128, TokenError>)
        requires
            self.wf(),
        ensures
            !is_valid_id(owner_id@) ==> r == Err::<u128, TokenError>(TokenError::InvalidOwnerId),
            is_valid_id(owner_id@) && !is_valid_id(escrow_account_id@) ==> r == Err::<u128, TokenError>(
                TokenError::InvalidEscrowId,
            ),
            is_valid_id(owner_id@) && is_valid_id(escrow_account_id@) ==> r == Err::<u128, TokenError>(
                TokenError::HostUnavailable,
            ) || r == Ok::<u128, TokenError>(self.allowance_of(owner_id@, escrow_account_id@)),
    {
        if !valid_account_id(&owner_id) {
            return Err(TokenError::InvalidOwnerId);
        }
        if !valid_account_id(&escrow_account_id) {
            return Err(TokenError::InvalidEscrowId);
        }
        let key = match hash_account_id(&owner_id) {
            Some(k) => k,
            None => {
                return Err(TokenError::HostUnavailable);
            },
        };
        let escrow_key = match hash_account_id(&escrow_account_id) {
            Some(k) => k,
            None => {
                return Err(TokenError::HostUnavailable);
            },
        };
        Ok(self.allowance_by_key(&key, &escrow_key))
    }
}

/// A transfer moves tokens and creates none: on a well-formed ledger the
/// balances after a transfer add up to the same total as before, which is
/// still the total supply.
pub proof fn transfers_conserve_supply(
    before: FungibleToken,
    after: FungibleToken,
    owner: Seq<char>,
    new_owner: Seq<char>,
    amount: u128,
    caller: Seq<char>,
)
    requires
        before.wf(),
        after.wf(),
        after.transferred(&before, owner, new_owner, amount, caller),
    ensures
        sum_balances(after.accounts@) == sum_balances(before.accounts@),
        sum_balances(after.accounts@) == after.total_supply,
{
}

/// A delegated transfer spends exactly the amount from the caller's
/// allowance, so repeating it on an allowance below twice the amount is
/// refused.
pub proof fn delegated_transfer_spends_allowance(
    before: FungibleToken,
    after: FungibleToken,
    owner: Seq<char>,
    new_owner: Seq<char>,
    amount: u128,
    caller: Seq<char>,
)
    requires
        before.wf(),
        caller != owner,
        before.transfer_error(owner, new_owner, amount, caller) is None,
        after.transferred(&before, owner, new_owner, amount, caller),
    ensures
        after.allowance_of(owner, caller) == before.allowance_of(owner, caller) - amount,
        before.allowance_of(owner, caller) < 2 * amount ==> after.transfer_error(
            owner,
            new_owner,
            amount,
            caller,
        ) is Some,
{
    let ok = id_hash(owner);
    let ek = id_hash(caller);
    assert(allowance_in_store(after.accounts@, ok, ek) as int == allowance_in_store(before.accounts@, ok, ek) - amount);
}

/// A zero allowance is never stored: on a well-formed ledger the account of
/// `owner` holds an entry for `escrow` exactly when that allowance is
/// positive.
pub proof fn zero_allowance_is_absent(t: FungibleToken, owner: Seq<char>, escrow: Seq<char>)
    requires
        t.wf(),
    ensures
        t.has_allowance_record(owner, escrow) == (t.allowance_of(owner, escrow) > 0),
{
    let s = t.accounts@;
    let k = id_hash(owner);
    if has_account(s, k) {
        let a = s[account_index(s, k)].1;
        assert(a.wf());
        let e = id_hash(escrow);
        if crate::account::has_allowance_entry(a.allowances@, e) {
            let i = choose|i: int| 0 <= i < a.allowances@.len() && a.allowances@[i].0@ == e;
            assert(a.allowances@[i].1 > 0);
        }
    }
}

/// Repeated delegated transfers of one amount spend the allowance step by
/// step: after `states.len() - 1` successful ones the allowance has gone
/// down by that many times the amount, which never exceeds the allowance at
/// the start; and once that many plus one times the amount exceeds it, the
/// next repetition is refused.
pub proof fn repeated_delegated_transfers(
    states: Seq<FungibleToken>,
    owner: Seq<char>,
    new_owner: Seq<char>,
    amount: u128,
    caller: Seq<char>,
)
    requires
        states.len() >= 1,
        caller != owner,
        forall|i: int| 0 <= i < states.len() - 1 ==> {
            &&& (#[trigger] states[i]).wf()
            &&& states[i].transfer_error(owner, new_owner, amount, caller) is None
            &&& states[i + 1].transferred(&states[i], owner, new_owner, amount, caller)
        },
    ensures
        states.last().allowance_of(owner, caller) == states[0].allowance_of(owner, caller) - (states.len() - 1)
            * amount,
        (states.len() - 1) * amount <= states[0].allowance_of(owner, caller),
        states.len() * amount > states[0].allowance_of(owner, caller) ==> states.last().transfer_error(
            owner,
            new_owner,
            amount,
            caller,
        ) is Some,
    decreases states.len(),
{
    let n = states.len() as int;
    if n > 1 {
        let prev = states.drop_last();
        assert forall|i: int| 0 <= i < prev.len() - 1 implies {
            &&& (#[trigger] prev[i]).wf()
            &&& prev[i].transfer_error(owner, new_owner, amount, caller) is None
            &&& prev[i + 1].transferred(&prev[i], owner, new_owner, amount, caller)
        } by {
            assert(prev[i] == states[i]);
            assert(prev[i + 1] == states[i + 1]);
        }
        repeated_delegated_transfers(prev, owner, new_owner, amount, caller);
        let b = states[n - 2];
        assert(states[n - 2] == prev.last());
        assert(b.wf());
        delegated_transfer_spends_allowance(b, states[n - 1], owner, new_owner, amount, caller);
        assert((n - 1) * amount == (n - 2) * amount + amount) by (nonlinear_arith);
        assert(n * amount == (n - 1) * amount + amount) by (nonlinear_arith);
    } else {
        assert(states.last() == states[0]);
    }
}

} // verus!
