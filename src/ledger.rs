use vstd::prelude::*;

use crate::error::TokenError;

verus! {

/// Opaque identity of an account, as handed in by the host.
pub type AccountKey = u64;

/// Abstract state of the ledger: who holds how much, and the total supply.
pub struct LedgerState {
    pub balances: Map<AccountKey, u128>,
    pub total_supply: u128,
}

/// No two entries name the same account.
pub open spec fn unique_keys(s: Seq<(AccountKey, u128)>) -> bool {
    forall|i: int, j: int|
        0 <= i < s.len() && 0 <= j < s.len() && i != j ==> s[i].0 != s[j].0
}

/// The balance map that a list of entries describes.
pub open spec fn balances_of(s: Seq<(AccountKey, u128)>) -> Map<AccountKey, u128>
    decreases s.len(),
{
    if s.len() == 0 {
        Map::empty()
    } else {
        balances_of(s.drop_last()).insert(s.last().0, s.last().1)
    }
}

/// Sum of the balances in a list of entries.
pub open spec fn sum_of(s: Seq<(AccountKey, u128)>) -> int
    decreases s.len(),
{
    if s.len() == 0 {
        0
    } else {
        sum_of(s.drop_last()) + s.last().1
    }
}

/// Balance of an account; an unregistered account holds nothing.
pub open spec fn balance_in(s: LedgerState, a: AccountKey) -> u128 {
    if s.balances.contains_key(a) {
        s.balances[a]
    } else {
        0
    }
}

pub open spec fn register_spec(s: LedgerState, a: AccountKey) -> Result<LedgerState, TokenError> {
    if s.balances.contains_key(a) {
        Err(TokenError::AlreadyRegistered)
    } else {
        Ok(LedgerState { balances: s.balances.insert(a, 0), total_supply: s.total_supply })
    }
}

pub open spec fn deposit_spec(s: LedgerState, a: AccountKey, amount: u128) -> Result<
    LedgerState,
    TokenError,
> {
    if !s.balances.contains_key(a) {
        Err(TokenError::NotRegistered)
    } else if s.total_supply + amount > u128::MAX || s.balances[a] + amount > u128::MAX {
        Err(TokenError::Overflow)
    } else {
        Ok(
            LedgerState {
                balances: s.balances.insert(a, (s.balances[a] + amount) as u128),
                total_supply: (s.total_supply + amount) as u128,
            },
        )
    }
}

pub open spec fn withdraw_spec(s: LedgerState, a: AccountKey, amount: u128) -> Result<
    LedgerState,
    TokenError,
> {
    if balance_in(s, a) < amount {
        Err(TokenError::InsufficientBalance)
    } else if !s.balances.contains_key(a) {
        Ok(s)
    } else {
        Ok(
            LedgerState {
                balances: s.balances.insert(a, (s.balances[a] - amount) as u128),
                total_supply: (s.total_supply - amount) as u128,
            },
        )
    }
}

pub open spec fn transfer_spec(
    s: LedgerState,
    sender: AccountKey,
    receiver: AccountKey,
    amount: u128,
) -> Result<LedgerState, TokenError> {
    if sender == receiver {
        Err(TokenError::SelfTransfer)
    } else if amount == 0 {
        Err(TokenError::ZeroAmount)
    } else if balance_in(s, sender) < amount {
        Err(TokenError::InsufficientBalance)
    } else if !s.balances.contains_key(receiver) {
        Err(TokenError::ReceiverNotRegistered)
    } else {
        Ok(
            LedgerState {
                balances: s.balances.insert(sender, (s.balances[sender] - amount) as u128).insert(
                    receiver,
                    (s.balances[receiver] + amount) as u128,
                ),
                total_supply: s.total_supply,
            },
        )
    }
}

/// Removing an account burns whatever it still holds.
pub open spec fn close_spec(s: LedgerState, a: AccountKey) -> LedgerState {
    LedgerState {
        balances: s.balances.remove(a),
        total_supply: (s.total_supply - balance_in(s, a)) as u128,
    }
}


/// What a resolution hands back: how much of the transfer counts as used,
/// and how much was burned because its owner was gone.
#[derive(Clone, Copy, Debug, PartialEq, Eq, Structural)]
pub struct Resolution {
    pub used: u128,
    pub burned: u128,
}

/// Part of `amount` to give back, when the receiver reported `used`
/// (nothing reported counts as nothing used).
pub open spec fn refund_of(amount: u128, used: Option<u128>) -> u128 {
    match used {
        Some(u) => if u >= amount {
            0
        } else {
            (amount - u) as u128
        },
        None => amount,
    }
}

/// Settling a transfer: the refund is taken back from the receiver, as far as
/// the receiver still holds it, and credited to the sender, or burned where the
/// sender is no longer registered.
pub open spec fn settle_spec(
    s: LedgerState,
    sender: AccountKey,
    receiver: AccountKey,
    amount: u128,
    used: Option<u128>,
) -> (LedgerState, Resolution) {
    let refund = refund_of(amount, used);
    let held = balance_in(s, receiver);
    let back: u128 = if held < refund {
        held
    } else {
        refund
    };
    if back == 0 {
        (s, Resolution { used: amount, burned: 0 })
    } else if s.balances.contains_key(sender) {
        (
            LedgerState {
                balances: s.balances.insert(receiver, (held - back) as u128).insert(
                    sender,
                    (s.balances[sender] + back) as u128,
                ),
                total_supply: s.total_supply,
            },
            Resolution { used: (amount - back) as u128, burned: 0 },
        )
    } else {
        (
            LedgerState {
                balances: s.balances.insert(receiver, (held - back) as u128),
                total_supply: (s.total_supply - back) as u128,
            },
            Resolution { used: amount, burned: back },
        )
    }
}

proof fn lemma_prefix_sum_le(s: Seq<(AccountKey, u128)>, k: int)
    requires
        0 <= k <= s.len(),
    ensures
        sum_of(s.take(k)) <= sum_of(s),
    decreases s.len(),
{
    if k == s.len() {
        assert(s.take(k) =~= s);
    } else {
        assert(s.drop_last().take(k) =~= s.take(k));
        lemma_prefix_sum_le(s.drop_last(), k);
    }
}

proof fn lemma_key_in(s: Seq<(AccountKey, u128)>, i: int)
    requires
        unique_keys(s),
        0 <= i < s.len(),
    ensures
        balances_of(s).contains_key(s[i].0),
        balances_of(s)[s[i].0] == s[i].1,
    decreases s.len(),
{
    if i < s.len() - 1 {
        lemma_key_in(s.drop_last(), i);
    }
}

proof fn lemma_key_absent(s: Seq<(AccountKey, u128)>, k: AccountKey)
    requires
        forall|i: int| 0 <= i < s.len() ==> s[i].0 != k,
    ensures
        !balances_of(s).contains_key(k),
    decreases s.len(),
{
    if s.len() > 0 {
        lemma_key_absent(s.drop_last(), k);
    }
}

proof fn lemma_update(s: Seq<(AccountKey, u128)>, i: int, v: u128)
    requires
        unique_keys(s),
        0 <= i < s.len(),
    ensures
        balances_of(s.update(i, (s[i].0, v))) == balances_of(s).insert(s[i].0, v),
        sum_of(s.update(i, (s[i].0, v))) == sum_of(s) - s[i].1 + v,
        unique_keys(s.update(i, (s[i].0, v))),
    decreases s.len(),
{
    let t = s.update(i, (s[i].0, v));
    if i == s.len() - 1 {
        assert(t.drop_last() =~= s.drop_last());
        assert(balances_of(t) =~= balances_of(s).insert(s[i].0, v));
    } else {
        assert(t.drop_last() =~= s.drop_last().update(i, (s[i].0, v)));
        lemma_update(s.drop_last(), i, v);
        assert(s.last().0 != s[i].0);
        assert(balances_of(t) =~= balances_of(s).insert(s[i].0, v));
    }
}

proof fn lemma_remove(s: Seq<(AccountKey, u128)>, i: int)
    requires
        unique_keys(s),
        0 <= i < s.len(),
    ensures
        balances_of(s.remove(i)) == balances_of(s).remove(s[i].0),
        sum_of(s.remove(i)) == sum_of(s) - s[i].1,
        unique_keys(s.remove(i)),
    decreases s.len(),
{
    let t = s.remove(i);
    if i == s.len() - 1 {
        assert(t =~= s.drop_last());
        assert forall|j: int| 0 <= j < t.len() implies t[j].0 != s[i].0 by {
            assert(s[j] == t[j]);
        }
        lemma_key_absent(t, s[i].0);
        assert(balances_of(t) =~= balances_of(s).remove(s[i].0));
    } else {
        assert(t.drop_last() =~= s.drop_last().remove(i));
        assert(t.last() == s.last());
        lemma_remove(s.drop_last(), i);
        assert(s.last().0 != s[i].0);
        assert(balances_of(t) =~= balances_of(s).remove(s[i].0));
    }
}

proof fn lemma_entry_le_sum(s: Seq<(AccountKey, u128)>, i: int)
    requires
        0 <= i < s.len(),
    ensures
        s[i].1 <= sum_of(s),
        0 <= sum_of(s),
    decreases s.len(),
{
    lemma_sum_nonneg(s.drop_last());
    if i < s.len() - 1 {
        assert(s.drop_last()[i] == s[i]);
        lemma_entry_le_sum(s.drop_last(), i);
    }
}

proof fn lemma_sum_nonneg(s: Seq<(AccountKey, u128)>)
    ensures
        0 <= sum_of(s),
    decreases s.len(),
{
    if s.len() > 0 {
        lemma_sum_nonneg(s.drop_last());
    }
}

proof fn lemma_two_le_sum(s: Seq<(AccountKey, u128)>, i: int, j: int)
    requires
        0 <= i < s.len(),
        0 <= j < s.len(),
        i != j,
    ensures
        s[i].1 + s[j].1 <= sum_of(s),
    decreases s.len(),
{
    let n = s.len() - 1;
    if i < n && j < n {
        assert(s.drop_last()[i] == s[i]);
        assert(s.drop_last()[j] == s[j]);
        lemma_two_le_sum(s.drop_last(), i, j);
    } else if i == n {
        assert(s.drop_last()[j] == s[j]);
        lemma_entry_le_sum(s.drop_last(), j);
    } else {
        assert(s.drop_last()[i] == s[i]);
        lemma_entry_le_sum(s.drop_last(), i);
    }
}

/// Turns a receiver's report of what it left unused into a report of what it
/// used: any unused amount beyond the transfer counts as all of it.
pub fn used_from_unused(amount: u128, unused: Option<u128>) -> (r: Option<u128>)
    ensures
        match unused {
            Some(u) => r == Some((if u >= amount {
                0
            } else {
                amount - u
            }) as u128) && refund_of(amount, r) == (if u >= amount {
                amount
            } else {
                u
            }),
            None => r == None::<u128> && refund_of(amount, r) == amount,
        },
{
    match unused {
        Some(u) => if u >= amount {
            Some(0)
        } else {
            Some(amount - u)
        },
        None => None,
    }
}

/// Balances of registered accounts, kept as a list with one entry per account.
pub struct Ledger {
    accounts: Vec<(AccountKey, u128)>,
    total_supply: u128,
}

impl View for Ledger {
    type V = LedgerState;

    closed spec fn view(&self) -> LedgerState {
        LedgerState { balances: balances_of(self.accounts@), total_supply: self.total_supply }
    }
}

impl Ledger {
    /// The entries of the ledger, one per registered account.
    pub closed spec fn entries(&self) -> Seq<(AccountKey, u128)> {
        self.accounts@
    }

    /// Every registered account is listed once, and the listed balances
    /// add up to the total supply.
    pub open spec fn wf(&self) -> bool {
        &&& unique_keys(self.entries())
        &&& balances_of(self.entries()) == self@.balances
        &&& sum_of(self.entries()) == self@.total_supply as int
    }

    /// Holds for every ledger that the operations of this type can produce:
    /// the balances of the registered accounts add up to the total supply.
    pub proof fn lemma_supply_is_sum_of_balances(&self)
        requires
            self.wf(),
        ensures
            unique_keys(self.entries()),
            balances_of(self.entries()) == self@.balances,
            sum_of(self.entries()) == self@.total_supply,
    {
    }

    pub fn new() -> (r: Ledger)
        ensures
            r.wf(),
            r@.balances == Map::<AccountKey, u128>::empty(),
            r@.total_supply == 0,
    {
        Ledger { accounts: Vec::new(), total_supply: 0 }
    }

    fn find(&self, a: AccountKey) -> (r: Option<usize>)
        requires
            self.wf(),
        ensures
            match r {
                Some(i) => i < self.accounts@.len() && self.accounts@[i as int].0 == a
                    && self@.balances.contains_key(a) && self@.balances[a]
                    == self.accounts@[i as int].1,
                None => !self@.balances.contains_key(a),
            },
    {
        let mut i: usize = 0;
        while i < self.accounts.len()
            invariant
                self.wf(),
                i <= self.accounts@.len(),
                forall|j: int| 0 <= j < i ==> self.accounts@[j].0 != a,
            decreases self.accounts@.len() - i,
        {
            if self.accounts[i].0 == a {
                proof {
                    lemma_key_in(self.accounts@, i as int);
                }
                return Some(i);
            }
            i = i + 1;
        }
        proof {
            lemma_key_absent(self.accounts@, a);
        }
        None
    }

    proof fn lemma_index_bound(&self, i: int)
        requires
            self.wf(),
            0 <= i < self.accounts@.len(),
        ensures
            self.accounts@[i].1 <= self.total_supply,
    {
        lemma_entry_le_sum(self.accounts@, i);
    }

    fn set_balance(&mut self, i: usize, v: u128, total: u128)
        requires
            old(self).wf(),
            i < old(self).accounts@.len(),
            sum_of(old(self).accounts@) - old(self).accounts@[i as int].1 + v == total,
        ensures
            final(self).wf(),
            final(self).accounts@.len() == old(self).accounts@.len(),
            final(self)@.balances == old(self)@.balances.insert(
                old(self).accounts@[i as int].0,
                v,
            ),
            final(self)@.total_supply == total,
            forall|j: int|
                0 <= j < old(self).accounts@.len() && j != i ==> final(self).accounts@[j]
                    == old(self).accounts@[j],
            final(self).accounts@[i as int] == (old(self).accounts@[i as int].0, v),
    {
        let k = self.accounts[i].0;
        proof {
            lemma_update(self.accounts@, i as int, v);
        }
        self.accounts.set(i, (k, v));
        self.total_supply = total;
    }

    pub fn balance_of(&self, a: AccountKey) -> (r: u128)
        requires
            self.wf(),
        ensures
            r == balance_in(self@, a),
    {
        match self.find(a) {
            Some(i) => self.accounts[i].1,
            None => 0,
        }
    }

    pub fn total_supply(&self) -> (r: u128)
        ensures
            r == self@.total_supply,
    {
        self.total_supply
    }

    pub fn is_registered(&self, a: AccountKey) -> (r: bool)
        requires
            self.wf(),
        ensures
            r == self@.balances.contains_key(a),
    {
        self.find(a).is_some()
    }

    pub fn register(&mut self, a: AccountKey) -> (r: Result<(), TokenError>)
        requires
            old(self).wf(),
        ensures
            final(self).wf(),
            match r {
                Ok(()) => register_spec(old(self)@, a) == Ok::<LedgerState, TokenError>(
                    final(self)@,
                ),
                Err(e) => register_spec(old(self)@, a) == Err::<LedgerState, TokenError>(e)
                    && final(self)@ == old(self)@,
            },
    {
        if self.find(a).is_some() {
            return Err(TokenError::AlreadyRegistered);
        }
        let ghost s = self.accounts@;
        self.accounts.push((a, 0));
        proof {
            assert(self.accounts@.drop_last() =~= s);
            assert(unique_keys(self.accounts@)) by {
                assert forall|j: int| 0 <= j < s.len() implies s[j].0 != a by {
                    if s[j].0 == a {
                        lemma_key_in(s, j);
                    }
                }
            }
        }
        Ok(())
    }

    pub fn deposit(&mut self, a: AccountKey, amount: u128) -> (r: Result<(), TokenError>)
        requires
            old(self).wf(),
        ensures
            final(self).wf(),
            match r {
                Ok(()) => deposit_spec(old(self)@, a, amount) == Ok::<LedgerState, TokenError>(
                    final(self)@,
                ),
                Err(e) => deposit_spec(old(self)@, a, amount) == Err::<LedgerState, TokenError>(e)
                    && final(self)@ == old(self)@,
            },
    {
        match self.find(a) {
            None => Err(TokenError::NotRegistered),
            Some(i) => {
                let b = self.accounts[i].1;
                if amount > u128::MAX - self.total_supply || amount > u128::MAX - b {
                    return Err(TokenError::Overflow);
                }
                let total = self.total_supply + amount;
                self.set_balance(i, b + amount, total);
                Ok(())
            },
        }
    }

    pub fn withdraw(&mut self, a: AccountKey, amount: u128) -> (r: Result<(), TokenError>)
        requires
            old(self).wf(),
        ensures
            final(self).wf(),
            match r {
                Ok(()) => withdraw_spec(old(self)@, a, amount) == Ok::<LedgerState, TokenError>(
                    final(self)@,
                ),
                Err(e) => withdraw_spec(old(self)@, a, amount) == Err::<LedgerState, TokenError>(
                    e,
                ) && final(self)@ == old(self)@,
            },
    {
        match self.find(a) {
            None => if amount > 0 {
                Err(TokenError::InsufficientBalance)
            } else {
                Ok(())
            },
            Some(i) => {
                let b = self.accounts[i].1;
                if b < amount {
                    return Err(TokenError::InsufficientBalance);
                }
                proof {
                    self.lemma_index_bound(i as int);
                }
                let total = self.total_supply - amount;
                self.set_balance(i, b - amount, total);
                Ok(())
            },
        }
    }
    /// Whether `transfer` would succeed, without moving anything.
    pub fn check_transfer(&self, sender: AccountKey, receiver: AccountKey, amount: u128) -> (r:
        Result<(), TokenError>)
        requires
            self.wf(),
        ensures
            match r {
                Ok(()) => transfer_spec(self@, sender, receiver, amount) is Ok,
                Err(e) => transfer_spec(self@, sender, receiver, amount) == Err::<
                    LedgerState,
                    TokenError,
                >(e),
            },
    {
        if sender == receiver {
            return Err(TokenError::SelfTransfer);
        }
        if amount == 0 {
            return Err(TokenError::ZeroAmount);
        }
        match self.find(sender) {
            None => {
                return Err(TokenError::InsufficientBalance);
            },
            Some(i) => {
                if self.accounts[i].1 < amount {
                    return Err(TokenError::InsufficientBalance);
                }
            },
        }
        if self.find(receiver).is_none() {
            return Err(TokenError::ReceiverNotRegistered);
        }
        Ok(())
    }

    pub fn transfer(&mut self, sender: AccountKey, receiver: AccountKey, amount: u128) -> (r:
        Result<(), TokenError>)
        requires
            old(self).wf(),
        ensures
            final(self).wf(),
            match r {
                Ok(()) => transfer_spec(old(self)@, sender, receiver, amount) == Ok::<
                    LedgerState,
                    TokenError,
                >(final(self)@),
                Err(e) => transfer_spec(old(self)@, sender, receiver, amount) == Err::<
                    LedgerState,
                    TokenError,
                >(e) && final(self)@ == old(self)@,
            },
    {
        if sender == receiver {
            return Err(TokenError::SelfTransfer);
        }
        if amount == 0 {
            return Err(TokenError::ZeroAmount);
        }
        let i = match self.find(sender) {
            None => {
                return Err(TokenError::InsufficientBalance);
            },
            Some(i) => i,
        };
        let bs = self.accounts[i].1;
        if bs < amount {
            return Err(TokenError::InsufficientBalance);
        }
        let j = match self.find(receiver) {
            None => {
                return Err(TokenError::ReceiverNotRegistered);
            },
            Some(j) => j,
        };
        let br = self.accounts[j].1;
        proof {
            lemma_two_le_sum(self.accounts@, i as int, j as int);
        }
        let total = self.total_supply;
        self.set_balance(i, bs - amount, total - amount);
        self.set_balance(j, br + amount, total);
        Ok(())
    }

    /// Removes an account and burns what it held; returns that amount.
    pub fn close(&mut self, a: AccountKey) -> (r: Option<u128>)
        requires
            old(self).wf(),
        ensures
            final(self).wf(),
            match r {
                Some(b) => old(self)@.balances.contains_key(a) && b == old(self)@.balances[a]
                    && final(self)@ == close_spec(old(self)@, a),
                None => !old(self)@.balances.contains_key(a) && final(self)@ == old(self)@,
            },
    {
        match self.find(a) {
            None => None,
            Some(i) => {
                let b = self.accounts[i].1;
                proof {
                    self.lemma_index_bound(i as int);
                    lemma_remove(self.accounts@, i as int);
                }
                self.accounts.remove(i);
                self.total_supply = self.total_supply - b;
                Some(b)
            },
        }
    }

    /// Settles a transfer of `amount` from `sender` to `receiver` on the
    /// receiver's report of what it used.
    pub fn settle(
        &mut self,
        sender: AccountKey,
        receiver: AccountKey,
        amount: u128,
        used: Option<u128>,
    ) -> (r: Resolution)
        requires
            old(self).wf(),
            sender != receiver,
        ensures
            final(self).wf(),
            (final(self)@, r) == settle_spec(old(self)@, sender, receiver, amount, used),
    {
        let refund: u128 = match used {
            Some(u) => if u >= amount {
                0
            } else {
                amount - u
            },
            None => amount,
        };
        let j = match self.find(receiver) {
            None => {
                return Resolution { used: amount, burned: 0 };
            },
            Some(j) => j,
        };
        let held = self.accounts[j].1;
        let back: u128 = if held < refund {
            held
        } else {
            refund
        };
        if back == 0 {
            return Resolution { used: amount, burned: 0 };
        }
        proof {
            self.lemma_index_bound(j as int);
        }
        match self.find(sender) {
            Some(i) => {
                let bs = self.accounts[i].1;
                proof {
                    lemma_two_le_sum(self.accounts@, i as int, j as int);
                }
                let total = self.total_supply;
                self.set_balance(j, held - back, total - back);
                self.set_balance(i, bs + back, total);
                Resolution { used: amount - back, burned: 0 }
            },
            None => {
                let total = self.total_supply - back;
                self.set_balance(j, held - back, total);
                Resolution { used: amount, burned: back }
            },
        }
    }
    /// The entries of the ledger, one per registered account.
    pub fn to_entries(&self) -> (r: Vec<(AccountKey, u128)>)
        ensures
            r@ == self.entries(),
    {
        let mut r: Vec<(AccountKey, u128)> = Vec::new();
        let mut i: usize = 0;
        while i < self.accounts.len()
            invariant
                i <= self.accounts@.len(),
                r@ == self.accounts@.take(i as int),
            decreases self.accounts@.len() - i,
        {
            r.push(self.accounts[i]);
            i = i + 1;
            proof {
                assert(r@ =~= self.accounts@.take(i as int));
            }
        }
        proof {
            assert(r@ =~= self.accounts@);
        }
        r
    }

    /// Rebuilds a ledger from its entries; fails where two entries name the
    /// same account or the balances add up to more than a `u128` holds.
    pub fn from_entries(entries: &Vec<(AccountKey, u128)>) -> (r: Option<Ledger>)
        ensures
            match r {
                Some(l) => l.wf() && l.entries() == entries@ && l@.total_supply == sum_of(
                    entries@,
                ),
                None => !(unique_keys(entries@) && sum_of(entries@) <= u128::MAX),
            },
    {
        let mut l = Ledger { accounts: Vec::new(), total_supply: 0 };
        proof {
            assert(entries@.take(0) =~= l.accounts@);
        }
        let mut i: usize = 0;
        while i < entries.len()
            invariant
                i <= entries@.len(),
                l.wf(),
                l.accounts@ == entries@.take(i as int),
            decreases entries@.len() - i,
        {
            let e = entries[i];
            let ghost before = l.accounts@;
            match l.find(e.0) {
                Some(j) => {
                    proof {
                        assert(entries@[j as int] == before[j as int]);
                    }
                    return None;
                },
                None => {},
            }
            proof {
                assert(entries@.take(i as int + 1).drop_last() =~= entries@.take(i as int));
                lemma_prefix_sum_le(entries@, i as int + 1);
            }
            if e.1 > u128::MAX - l.total_supply {
                return None;
            }
            l.total_supply = l.total_supply + e.1;
            l.accounts.push(e);
            proof {
                assert(l.accounts@ =~= entries@.take(i as int + 1));
                assert(l.accounts@.drop_last() =~= before);
                assert forall|j: int| 0 <= j < before.len() implies before[j].0 != e.0 by {
                    if before[j].0 == e.0 {
                        lemma_key_in(before, j);
                    }
                }
            }
            i = i + 1;
        }
        proof {
            assert(entries@.take(entries@.len() as int) =~= entries@);
        }
        Some(l)
    }
}

} // verus!
