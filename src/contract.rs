use vstd::prelude::*;

use crate::error::TokenError;
use crate::ledger::{
    balance_in, balances_of, close_spec, sum_of, unique_keys, deposit_spec, settle_spec, transfer_spec, AccountKey, Ledger,
    LedgerState, Resolution,
};
use crate::pools::{
    RafflePool, TappingPool, GLOBAL_TAPPING_POOL_AMOUNT, GLOBAL_TAPPING_POOL_ID,
    LOOT_RAFFLE_POOL_AMOUNT, LOOT_RAFFLE_POOL_ID,
};

verus! {

/// A transfer applied to the balances and waiting for the receiver's report.
#[derive(Clone, Copy, Debug, PartialEq, Eq, Structural)]
pub struct PendingTransfer {
    pub id: u64,
    pub sender: AccountKey,
    pub receiver: AccountKey,
    pub amount: u128,
}

/// Whether a receiver can be notified of a transfer and report its use.
#[derive(Clone, Copy, Debug, PartialEq, Eq, Structural)]
pub enum ReceiverKind {
    Plain,
    Program,
}

/// Outcome of a notifying transfer once the balances have moved.
#[derive(Clone, Copy, Debug, PartialEq, Eq, Structural)]
pub enum TransferCall {
    /// The receiver takes no notice: the whole amount counts as used.
    Settled { used: u128 },
    /// The receiver is to be notified; resolve `id` once it has answered.
    Pending { id: u64 },
}

/// Storage prepaid by a registered account.
#[derive(Clone, Copy, Debug, PartialEq, Eq, Structural)]
pub struct StorageBalance {
    pub total: u128,
    pub available: u128,
}

/// The least and the most storage deposit that an account may hold.
#[derive(Clone, Copy, Debug, PartialEq, Eq, Structural)]
pub struct StorageBalanceBounds {
    pub min: u128,
    pub max: Option<u128>,
}

/// What a storage deposit leaves: the account's storage balance and the part
/// of the attached deposit to hand back.
#[derive(Clone, Copy, Debug, PartialEq, Eq, Structural)]
pub struct StorageDeposit {
    pub balance: StorageBalance,
    pub refund: u128,
}

/// Abstract state of the token contract.
pub struct ContractState {
    pub ledger: LedgerState,
    pub pending: Seq<PendingTransfer>,
    pub next_transfer_id: u64,
    pub registration_cost: u128,
    /// The account allowed to mint.
    pub owner: AccountKey,
}

/// In-flight transfers are listed in the order they began, each under an
/// identifier not handed out before, between two distinct accounts.
pub open spec fn pending_ok(p: Seq<PendingTransfer>, next: u64) -> bool {
    &&& forall|i: int, j: int| 0 <= i < j < p.len() ==> p[i].id < p[j].id
    &&& forall|i: int| 0 <= i < p.len() ==> p[i].id < next
    &&& forall|i: int| 0 <= i < p.len() ==> p[i].sender != p[i].receiver
}

pub open spec fn with_ledger(c: ContractState, l: LedgerState) -> ContractState {
    ContractState { ledger: l, ..c }
}

pub open spec fn is_pending(c: ContractState, id: u64) -> bool {
    exists|i: int| 0 <= i < c.pending.len() && c.pending[i].id == id
}

/// Resolving an in-flight transfer settles it and forgets it; resolving an
/// identifier that is not in flight changes nothing.
pub open spec fn resolve_spec(c: ContractState, id: u64, used: Option<u128>) -> (
    ContractState,
    Option<Resolution>,
) {
    if is_pending(c, id) {
        let i = choose|i: int| 0 <= i < c.pending.len() && c.pending[i].id == id;
        let p = c.pending[i];
        let (l, r) = settle_spec(c.ledger, p.sender, p.receiver, p.amount, used);
        (ContractState { ledger: l, pending: c.pending.remove(i), ..c }, Some(r))
    } else {
        (c, None)
    }
}

pub open spec fn transfer_call_spec(
    c: ContractState,
    sender: AccountKey,
    receiver: AccountKey,
    amount: u128,
    kind: ReceiverKind,
) -> Result<(ContractState, TransferCall), TokenError> {
    match transfer_spec(c.ledger, sender, receiver, amount) {
        Err(e) => Err(e),
        Ok(l) => match kind {
            ReceiverKind::Plain => Ok((with_ledger(c, l), TransferCall::Settled { used: amount })),
            ReceiverKind::Program => if c.next_transfer_id == u64::MAX {
                Err(TokenError::Overflow)
            } else {
                Ok(
                    (
                        ContractState {
                            ledger: l,
                            pending: c.pending.push(
                                PendingTransfer { id: c.next_transfer_id, sender, receiver, amount },
                            ),
                            next_transfer_id: (c.next_transfer_id + 1) as u64,
                            ..c
                        },
                        TransferCall::Pending { id: c.next_transfer_id },
                    ),
                )
            },
        },
    }
}

pub open spec fn storage_balance_spec(c: ContractState, a: AccountKey) -> Option<StorageBalance> {
    if c.ledger.balances.contains_key(a) {
        Some(StorageBalance { total: c.registration_cost, available: 0 })
    } else {
        None
    }
}

/// A second resolution of the same transfer finds nothing in flight and
/// leaves every balance, and the whole state, as the first one left it.
pub proof fn lemma_resolve_once(c: ContractState, id: u64, first: Option<u128>, second: Option<u128>)
    requires
        pending_ok(c.pending, c.next_transfer_id),
    ensures
        resolve_spec(resolve_spec(c, id, first).0, id, second) == (
            resolve_spec(c, id, first).0,
            None::<Resolution>,
        ),
{
    let c1 = resolve_spec(c, id, first).0;
    if is_pending(c, id) {
        let i = choose|i: int| 0 <= i < c.pending.len() && c.pending[i].id == id;
        assert forall|j: int| 0 <= j < c1.pending.len() implies c1.pending[j].id != id by {
            if j < i {
                assert(c1.pending[j] == c.pending[j]);
            } else {
                assert(c1.pending[j] == c.pending[j + 1]);
            }
        }
    }
}

/// A transfer never takes a sender below zero: it succeeds only where the
/// sender holds the amount, and leaves the sender exactly that much less.
pub proof fn lemma_transfer_within_balance(
    s: LedgerState,
    sender: AccountKey,
    receiver: AccountKey,
    amount: u128,
)
    requires
        transfer_spec(s, sender, receiver, amount) is Ok,
    ensures
        balance_in(s, sender) >= amount,
        balance_in(transfer_spec(s, sender, receiver, amount)->Ok_0, sender) == balance_in(
            s,
            sender,
        ) - amount,
{
}

/// Checks that a list of in-flight transfers could have been produced by a
/// contract whose next identifier is `next`.
pub fn pending_valid(p: &Vec<PendingTransfer>, next: u64) -> (r: bool)
    ensures
        r == pending_ok(p@, next),
{
    let mut i: usize = 0;
    while i < p.len()
        invariant
            i <= p@.len(),
            pending_ok(p@.take(i as int), next),
        decreases p@.len() - i,
    {
        let q = p[i];
        if q.id >= next || q.sender == q.receiver {
            proof {
                assert(p@.take(i as int + 1)[i as int] == q);
            }
            return false;
        }
        if i > 0 && p[i - 1].id >= q.id {
            return false;
        }
        proof {
            let s = p@.take(i as int + 1);
            assert forall|a: int, b: int| 0 <= a < b < s.len() implies s[a].id < s[b].id by {
                if b < i {
                    assert(p@.take(i as int)[a] == s[a]);
                    assert(p@.take(i as int)[b] == s[b]);
                } else if a < i - 1 {
                    assert(p@.take(i as int)[a] == s[a]);
                    assert(p@.take(i as int)[i - 1] == s[i - 1]);
                }
            }
            assert forall|a: int| 0 <= a < s.len() implies s[a].id < next && s[a].sender
                != s[a].receiver by {
                if a < i {
                    assert(p@.take(i as int)[a] == s[a]);
                }
            }
        }
        i = i + 1;
    }
    proof {
        assert(p@.take(p@.len() as int) =~= p@);
    }
    true
}

/// The token: its ledger, the transfers in flight, and the storage gate.
pub struct Contract {
    ledger: Ledger,
    pending: Vec<PendingTransfer>,
    next_transfer_id: u64,
    registration_cost: u128,
    owner: AccountKey,
    raffle_pools: Vec<RafflePool>,
    tapping_pools: Vec<TappingPool>,
}

impl View for Contract {
    type V = ContractState;

    closed spec fn view(&self) -> ContractState {
        ContractState {
            ledger: self.ledger@,
            pending: self.pending@,
            next_transfer_id: self.next_transfer_id,
            registration_cost: self.registration_cost,
            owner: self.owner,
        }
    }
}

impl Contract {
    pub closed spec fn wf(&self) -> bool {
        &&& self.ledger.wf()
        &&& pending_ok(self.pending@, self.next_transfer_id)
    }

    /// The ledger behind a contract.
    pub closed spec fn ledger(&self) -> Ledger {
        self.ledger
    }

    /// In every state the operations reach, the ledger lists each registered
    /// account once and the balances add up to the total supply.
    pub proof fn lemma_ledger_consistent(&self)
        requires
            self.wf(),
        ensures
            self.ledger().wf(),
            self.ledger()@ == self@.ledger,
            unique_keys(self.ledger().entries()),
            balances_of(self.ledger().entries()) == self@.ledger.balances,
            sum_of(self.ledger().entries()) == self@.ledger.total_supply,
            pending_ok(self@.pending, self@.next_transfer_id),
    {
    }

    fn init(owner: AccountKey, total_supply: u128, registration_cost: u128) -> (r: Contract)
        ensures
            r.wf(),
            r@.ledger.balances == map![owner => total_supply],
            r@.ledger.total_supply == total_supply,
            r@.pending == Seq::<PendingTransfer>::empty(),
            r@.next_transfer_id == 0,
            r@.registration_cost == registration_cost,
            r@.owner == owner,
            r.raffle_pools@ == Seq::<RafflePool>::empty(),
            r.tapping_pools@ == Seq::<TappingPool>::empty(),
    {
        let mut ledger = Ledger::new();
        let a = ledger.register(owner);
        let b = ledger.deposit(owner, total_supply);
        proof {
            assert(a is Ok);
            assert(b is Ok);
            assert(ledger@.balances =~= map![owner => total_supply]);
        }
        Contract {
            ledger,
            pending: Vec::new(),
            next_transfer_id: 0,
            registration_cost,
            owner,
            raffle_pools: Vec::new(),
            tapping_pools: Vec::new(),
        }
    }

    /// Starts the token with `total_supply` held by `owner`. Fails where a
    /// state already exists.
    pub fn new(owner: AccountKey, total_supply: u128, registration_cost: u128, state_exists: bool) -> (r:
        Result<Contract, TokenError>)
        ensures
            state_exists <==> r == Err::<Contract, TokenError>(TokenError::AlreadyInitialized),
            !state_exists <==> r is Ok,
            r matches Ok(c) ==> {
                &&& c.wf()
                &&& c@.ledger.balances == map![owner => total_supply]
                &&& c@.ledger.total_supply == total_supply
                &&& c@.pending == Seq::<PendingTransfer>::empty()
                &&& c@.next_transfer_id == 0
                &&& c@.registration_cost == registration_cost
                &&& c@.owner == owner
                &&& c.raffle_pool_list() == Seq::<RafflePool>::empty()
                &&& c.tapping_pool_list() == Seq::<TappingPool>::empty()
            },
    {
        if state_exists {
            return Err(TokenError::AlreadyInitialized);
        }
        Ok(Contract::init(owner, total_supply, registration_cost))
    }

    /// As `new`, and also sets up the loot raffle and global tapping pools.
    pub fn new_default_meta(
        owner: AccountKey,
        total_supply: u128,
        registration_cost: u128,
        state_exists: bool,
    ) -> (r: Result<Contract, TokenError>)
        ensures
            state_exists <==> r == Err::<Contract, TokenError>(TokenError::AlreadyInitialized),
            !state_exists <==> r is Ok,
            r matches Ok(c) ==> {
                &&& c.wf()
                &&& c@.ledger.balances == map![owner => total_supply]
                &&& c@.ledger.total_supply == total_supply
                &&& c@.pending == Seq::<PendingTransfer>::empty()
                &&& c@.next_transfer_id == 0
                &&& c@.registration_cost == registration_cost
                &&& c@.owner == owner
                &&& c.raffle_pool_list() == seq![RafflePool { pool_id: LOOT_RAFFLE_POOL_ID, amount: LOOT_RAFFLE_POOL_AMOUNT, total_amount: 0 }]
                &&& c.tapping_pool_list() == seq![TappingPool { pool_id: GLOBAL_TAPPING_POOL_ID, amount: GLOBAL_TAPPING_POOL_AMOUNT }]
            },
    {
        if state_exists {
            return Err(TokenError::AlreadyInitialized);
        }
        let mut c = Contract::init(owner, total_supply, registration_cost);
        c.raffle_pools.push(RafflePool::loot_raffle());
        c.tapping_pools.push(TappingPool::global_tapping());
        proof {
            assert(c.raffle_pools@ =~= seq![RafflePool { pool_id: LOOT_RAFFLE_POOL_ID, amount: LOOT_RAFFLE_POOL_AMOUNT, total_amount: 0 }]);
            assert(c.tapping_pools@ =~= seq![TappingPool { pool_id: GLOBAL_TAPPING_POOL_ID, amount: GLOBAL_TAPPING_POOL_AMOUNT }]);
        }
        Ok(c)
    }

    pub closed spec fn raffle_pool_list(&self) -> Seq<RafflePool> {
        self.raffle_pools@
    }

    pub closed spec fn tapping_pool_list(&self) -> Seq<TappingPool> {
        self.tapping_pools@
    }

    /// Adds `amount` new tokens to the registered account `owner_id`; only
    /// the contract's owner may mint.
    pub fn mint(&mut self, caller: AccountKey, owner_id: AccountKey, amount: u128) -> (r: Result<
        (),
        TokenError,
    >)
        requires
            old(self).wf(),
        ensures
            final(self).wf(),
            caller != old(self)@.owner ==> r == Err::<(), TokenError>(TokenError::Unauthorized)
                && final(self)@ == old(self)@,
            caller == old(self)@.owner ==> match r {
                Ok(()) => deposit_spec(old(self)@.ledger, owner_id, amount) == Ok::<
                    LedgerState,
                    TokenError,
                >(final(self)@.ledger) && final(self)@ == with_ledger(
                    old(self)@,
                    final(self)@.ledger,
                ),
                Err(e) => deposit_spec(old(self)@.ledger, owner_id, amount) == Err::<
                    LedgerState,
                    TokenError,
                >(e) && final(self)@ == old(self)@,
            },
    {
        if caller != self.owner {
            return Err(TokenError::Unauthorized);
        }
        self.ledger.deposit(owner_id, amount)
    }

    /// Moves `amount` from `sender` to `receiver`.
    pub fn ft_transfer(&mut self, sender: AccountKey, receiver: AccountKey, amount: u128) -> (r:
        Result<(), TokenError>)
        requires
            old(self).wf(),
        ensures
            final(self).wf(),
            match r {
                Ok(()) => transfer_spec(old(self)@.ledger, sender, receiver, amount) == Ok::<
                    LedgerState,
                    TokenError,
                >(final(self)@.ledger) && final(self)@ == with_ledger(
                    old(self)@,
                    final(self)@.ledger,
                ),
                Err(e) => transfer_spec(old(self)@.ledger, sender, receiver, amount) == Err::<
                    LedgerState,
                    TokenError,
                >(e) && final(self)@ == old(self)@,
            },
    {
        self.ledger.transfer(sender, receiver, amount)
    }

    /// Moves `amount` from `sender` to `receiver` at once; where the receiver
    /// is a program, the transfer stays in flight until it is resolved.
    pub fn ft_transfer_call(
        &mut self,
        sender: AccountKey,
        receiver: AccountKey,
        amount: u128,
        kind: ReceiverKind,
    ) -> (r: Result<TransferCall, TokenError>)
        requires
            old(self).wf(),
        ensures
            final(self).wf(),
            match r {
                Ok(t) => transfer_call_spec(old(self)@, sender, receiver, amount, kind) == Ok::<
                    (ContractState, TransferCall),
                    TokenError,
                >((final(self)@, t)),
                Err(e) => transfer_call_spec(old(self)@, sender, receiver, amount, kind) == Err::<
                    (ContractState, TransferCall),
                    TokenError,
                >(e) && final(self)@ == old(self)@,
            },
    {
        if kind == ReceiverKind::Program && self.next_transfer_id == u64::MAX {
            let probe = self.ledger.check_transfer(sender, receiver, amount);
            return match probe {
                Err(e) => Err(e),
                Ok(()) => Err(TokenError::Overflow),
            };
        }
        match self.ledger.transfer(sender, receiver, amount) {
            Err(e) => Err(e),
            Ok(()) => match kind {
                ReceiverKind::Plain => Ok(TransferCall::Settled { used: amount }),
                ReceiverKind::Program => {
                    let id = self.next_transfer_id;
                    self.pending.push(PendingTransfer { id, sender, receiver, amount });
                    self.next_transfer_id = id + 1;
                    Ok(TransferCall::Pending { id })
                },
            },
        }
    }

    /// Settles the in-flight transfer `id` on the receiver's report of what
    /// it used (`None` where it reported nothing). A transfer is settled at
    /// most once: for an identifier not in flight nothing changes.
    pub fn ft_resolve_transfer(&mut self, id: u64, used: Option<u128>) -> (r: Option<Resolution>)
        requires
            old(self).wf(),
        ensures
            final(self).wf(),
            (final(self)@, r) == resolve_spec(old(self)@, id, used),
    {
        let mut i: usize = 0;
        while i < self.pending.len()
            invariant
                self.wf(),
                self@ == old(self)@,
                i <= self.pending@.len(),
                forall|j: int| 0 <= j < i ==> self.pending@[j].id != id,
            decreases self.pending@.len() - i,
        {
            if self.pending[i].id == id {
                let p = self.pending[i];
                let ghost c = self@;
                proof {
                    assert(c.pending[i as int].id == id);
                    assert(is_pending(c, id));
                    let k = choose|k: int| 0 <= k < c.pending.len() && c.pending[k].id == id;
                    if k < i {
                        assert(c.pending[k].id < c.pending[i as int].id);
                    } else if k > i {
                        assert(c.pending[i as int].id < c.pending[k].id);
                    }
                }
                self.pending.remove(i);
                let r = self.ledger.settle(p.sender, p.receiver, p.amount, used);
                proof {
                    let q = self.pending@;
                    assert forall|a: int, b: int| 0 <= a < b < q.len() implies q[a].id < q[b].id by {
                        let a2 = if a < i { a } else { a + 1 };
                        let b2 = if b < i { b } else { b + 1 };
                        assert(q[a] == c.pending[a2]);
                        assert(q[b] == c.pending[b2]);
                    }
                    assert forall|a: int| 0 <= a < q.len() implies q[a].id < c.next_transfer_id
                        && q[a].sender != q[a].receiver by {
                        let a2 = if a < i { a } else { a + 1 };
                        assert(q[a] == c.pending[a2]);
                    }
                    assert(q =~= c.pending.remove(i as int));
                }
                return Some(r);
            }
            i = i + 1;
        }
        None
    }

    pub fn ft_total_supply(&self) -> (r: u128)
        requires
            self.wf(),
        ensures
            r == self@.ledger.total_supply,
    {
        self.ledger.total_supply()
    }

    /// Balance of an account; zero for one that is not registered.
    pub fn ft_balance_of(&self, account: AccountKey) -> (r: u128)
        requires
            self.wf(),
        ensures
            r == balance_in(self@.ledger, account),
    {
        self.ledger.balance_of(account)
    }

    /// Registration costs exactly the registration cost, no less and no more.
    pub fn storage_balance_bounds(&self) -> (r: StorageBalanceBounds)
        ensures
            r == (StorageBalanceBounds {
                min: self@.registration_cost,
                max: Some(self@.registration_cost),
            }),
    {
        StorageBalanceBounds { min: self.registration_cost, max: Some(self.registration_cost) }
    }

    /// Storage balance of a registered account; `None` for any other.
    pub fn storage_balance_of(&self, account: AccountKey) -> (r: Option<StorageBalance>)
        requires
            self.wf(),
        ensures
            r == storage_balance_spec(self@, account),
    {
        if self.ledger.is_registered(account) {
            Some(StorageBalance { total: self.registration_cost, available: 0 })
        } else {
            None
        }
    }

    /// Registers `account` against the `attached` deposit. A registered
    /// account gets the whole deposit back; an unregistered one needs at
    /// least the registration cost and gets back what exceeds it. The bounds
    /// leave no room for storage beyond registration, so `registration_only`
    /// changes nothing.
    pub fn storage_deposit(&mut self, account: AccountKey, attached: u128, registration_only: bool) -> (r:
        Result<StorageDeposit, TokenError>)
        requires
            old(self).wf(),
        ensures
            final(self).wf(),
            old(self)@.ledger.balances.contains_key(account) ==> r == Ok::<
                StorageDeposit,
                TokenError,
            >(
                StorageDeposit {
                    balance: StorageBalance { total: old(self)@.registration_cost, available: 0 },
                    refund: attached,
                },
            ) && final(self)@ == old(self)@,
            !old(self)@.ledger.balances.contains_key(account) && attached
                < old(self)@.registration_cost ==> r == Err::<StorageDeposit, TokenError>(
                TokenError::InsufficientDeposit,
            ) && final(self)@ == old(self)@,
            !old(self)@.ledger.balances.contains_key(account) && attached
                >= old(self)@.registration_cost ==> r == Ok::<StorageDeposit, TokenError>(
                StorageDeposit {
                    balance: StorageBalance { total: old(self)@.registration_cost, available: 0 },
                    refund: (attached - old(self)@.registration_cost) as u128,
                },
            ) && final(self)@ == with_ledger(
                old(self)@,
                LedgerState {
                    balances: old(self)@.ledger.balances.insert(account, 0),
                    total_supply: old(self)@.ledger.total_supply,
                },
            ),
    {
        let balance = StorageBalance { total: self.registration_cost, available: 0 };
        if self.ledger.is_registered(account) {
            return Ok(StorageDeposit { balance, refund: attached });
        }
        if attached < self.registration_cost {
            return Err(TokenError::InsufficientDeposit);
        }
        let _ = self.ledger.register(account);
        Ok(StorageDeposit { balance, refund: attached - self.registration_cost })
    }

    /// Withdraws from the storage balance of `account`, of which nothing is
    /// ever available: only a zero or absent amount succeeds.
    pub fn storage_withdraw(&self, account: AccountKey, amount: Option<u128>) -> (r: Result<
        StorageBalance,
        TokenError,
    >)
        requires
            self.wf(),
        ensures
            !self@.ledger.balances.contains_key(account) ==> r == Err::<StorageBalance, TokenError>(
                TokenError::NotRegistered,
            ),
            self@.ledger.balances.contains_key(account) && (amount matches Some(x) && x > 0) ==> r
                == Err::<StorageBalance, TokenError>(TokenError::InsufficientStorageBalance),
            self@.ledger.balances.contains_key(account) && !(amount matches Some(x) && x > 0) ==> r
                == Ok::<StorageBalance, TokenError>(
                StorageBalance { total: self@.registration_cost, available: 0 },
            ),
    {
        if !self.ledger.is_registered(account) {
            return Err(TokenError::NotRegistered);
        }
        match amount {
            Some(x) if x > 0 => Err(TokenError::InsufficientStorageBalance),
            _ => Ok(StorageBalance { total: self.registration_cost, available: 0 }),
        }
    }

    /// Closes the account and burns its balance, which must be zero unless
    /// `force` is set. Returns the burned balance, or `None` where the account
    /// was not registered.
    pub fn storage_unregister(&mut self, account: AccountKey, force: bool) -> (r: Result<
        Option<u128>,
        TokenError,
    >)
        requires
            old(self).wf(),
        ensures
            final(self).wf(),
            !old(self)@.ledger.balances.contains_key(account) ==> r == Ok::<
                Option<u128>,
                TokenError,
            >(None) && final(self)@ == old(self)@,
            old(self)@.ledger.balances.contains_key(account) && old(self)@.ledger.balances[account]
                > 0 && !force ==> r == Err::<Option<u128>, TokenError>(
                TokenError::PositiveBalanceNotForced,
            ) && final(self)@ == old(self)@,
            old(self)@.ledger.balances.contains_key(account) && (old(self)@.ledger.balances[account]
                == 0 || force) ==> r == Ok::<Option<u128>, TokenError>(
                Some(old(self)@.ledger.balances[account]),
            ) && final(self)@ == with_ledger(old(self)@, close_spec(old(self)@.ledger, account)),
    {
        if !self.ledger.is_registered(account) {
            return Ok(None);
        }
        if !force && self.ledger.balance_of(account) > 0 {
            return Err(TokenError::PositiveBalanceNotForced);
        }
        let b = self.ledger.close(account);
        Ok(b)
    }
    /// Rebuilds a contract from its parts; fails where two entries name the
    /// same account, the balances add up to more than a `u128` holds, or the
    /// in-flight transfers could not have been produced.
    pub fn from_parts(
        entries: &Vec<(AccountKey, u128)>,
        pending: Vec<PendingTransfer>,
        next_transfer_id: u64,
        registration_cost: u128,
        owner: AccountKey,
        raffle_pools: Vec<RafflePool>,
        tapping_pools: Vec<TappingPool>,
    ) -> (r: Option<Contract>)
        ensures
            match r {
                Some(c) => {
                    &&& c.wf()
                    &&& c.ledger().entries() == entries@
                    &&& c@.ledger.total_supply == sum_of(entries@)
                    &&& c@.pending == pending@
                    &&& c@.next_transfer_id == next_transfer_id
                    &&& c@.registration_cost == registration_cost
                    &&& c@.owner == owner
                    &&& c.raffle_pool_list() == raffle_pools@
                    &&& c.tapping_pool_list() == tapping_pools@
                },
                None => !(unique_keys(entries@) && sum_of(entries@) <= u128::MAX && pending_ok(
                    pending@,
                    next_transfer_id,
                )),
            },
    {
        if !pending_valid(&pending, next_transfer_id) {
            return None;
        }
        match Ledger::from_entries(entries) {
            None => None,
            Some(ledger) => Some(
                Contract {
                    ledger,
                    pending,
                    next_transfer_id,
                    registration_cost,
                    owner,
                    raffle_pools,
                    tapping_pools,
                },
            ),
        }
    }

    /// The ledger's entries, one per registered account.
    pub fn entries(&self) -> (r: Vec<(AccountKey, u128)>)
        ensures
            r@ == self.ledger().entries(),
    {
        self.ledger.to_entries()
    }

    /// The transfers in flight, oldest first.
    pub fn pending_transfers(&self) -> (r: Vec<PendingTransfer>)
        ensures
            r@ == self@.pending,
    {
        let mut r: Vec<PendingTransfer> = Vec::new();
        let mut i: usize = 0;
        while i < self.pending.len()
            invariant
                i <= self.pending@.len(),
                r@ == self.pending@.take(i as int),
            decreases self.pending@.len() - i,
        {
            r.push(self.pending[i]);
            i = i + 1;
            proof {
                assert(r@ =~= self.pending@.take(i as int));
            }
        }
        proof {
            assert(r@ =~= self.pending@);
        }
        r
    }

    pub fn next_transfer_id(&self) -> (r: u64)
        ensures
            r == self@.next_transfer_id,
    {
        self.next_transfer_id
    }

    pub fn owner(&self) -> (r: AccountKey)
        ensures
            r == self@.owner,
    {
        self.owner
    }

    pub fn registration_cost(&self) -> (r: u128)
        ensures
            r == self@.registration_cost,
    {
        self.registration_cost
    }

    pub fn raffle_pools(&self) -> (r: &Vec<RafflePool>)
        ensures
            r@ == self.raffle_pool_list(),
    {
        &self.raffle_pools
    }

    pub fn tapping_pools(&self) -> (r: &Vec<TappingPool>)
        ensures
            r@ == self.tapping_pool_list(),
    {
        &self.tapping_pools
    }
}

} // verus!
