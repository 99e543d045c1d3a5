//! The escrow itself: the ledger of running sessions, and the operations that
//! admit a session, settle it and sweep the stale ones away.

use vstd::prelude::*;
use crate::host;
use crate::host::STORAGE_PRICE_PER_BYTE;
use crate::model::{
    fresh_at, freed_bytes, is_storage_refund, record_bytes, stale_at, storage_refund, Ledger,
    Payment, Session, SessionError,
};

verus! {

/// How long a session must last before it may end successfully, unless the
/// ledger is made with another value: 25 minutes.
pub const DEFAULT_POMODORO_TIME_MS: u64 = 25 * 60 * 1_000;

/// How long a session may run before the sweep takes it away, unless the
/// ledger is made with another value: 100 minutes.
pub const DEFAULT_STALE_TIME_MS: u64 = 100 * 60 * 1_000;

/// The deposit-backed session of one participant.
#[derive(Clone, Debug, PartialEq, Eq)]
pub struct ActiveUsers {
    pub account: String,
    pub time_start: u64,
    pub locked_amount: u128,
}

impl View for ActiveUsers {
    type V = Session;

    open spec fn view(&self) -> Session {
        Session {
            account: self.account@,
            time_start: self.time_start as nat,
            locked_amount: self.locked_amount as nat,
        }
    }
}

/// A transfer that the escrow has decided on: `amount` is to go to the account
/// `to`. The escrow moves no funds itself; whoever runs an operation asks the
/// host for the transfers that the operation hands back, in their order.
#[derive(Clone, Debug, PartialEq, Eq)]
pub struct Transfer {
    pub to: String,
    pub amount: u128,
}

impl View for Transfer {
    type V = Payment;

    open spec fn view(&self) -> Payment {
        Payment { to: self.to@, amount: self.amount as nat }
    }
}

/// The payments that a list of transfers stands for.
pub open spec fn payments(transfers: Seq<Transfer>) -> Seq<Payment> {
    transfers.map_values(|t: Transfer| t@)
}

/// The sessions that a list of records stands for.
pub open spec fn sessions(users: Seq<ActiveUsers>) -> Seq<Session> {
    users.map_values(|u: ActiveUsers| u@)
}

/// The refund for the storage released between the measurement
/// `storage_prior` and the later measurement `storage_post`, at the price
/// `byte_cost` a byte. Storage that grew earns nothing.
pub fn compute_storage_refund(storage_prior: u64, storage_post: u64, byte_cost: u128) -> (refund:
    u128)
    requires
        storage_refund(storage_prior as nat, storage_post as nat, byte_cost as nat) <= u128::MAX,
    ensures
        refund == storage_refund(storage_prior as nat, storage_post as nat, byte_cost as nat),
{
    if storage_prior >= storage_post {
        let freed: u64 = storage_prior - storage_post;
        (freed as u128) * byte_cost
    } else {
        proof {
            assert(0 * (byte_cost as nat) == 0);
        }
        0
    }
}

/// The bytes that the record of a session of `account` adds to the
/// persisted state.
pub fn session_record_bytes(account: &String) -> (bytes: u128)
    ensures
        bytes == record_bytes(account@),
{
    let length: usize = account.as_str().as_bytes().len();
    (length as u128) + 28
}

/// What is left of `attached` once the storage of `storage_change` bytes at
/// `byte_cost` a byte and the deposit `lock_amount` are paid; or
/// `InsufficientDeposit` where `attached` does not cover them.
pub fn deposit_surplus(attached: u128, storage_change: u128, byte_cost: u128, lock_amount: u128) -> (surplus:
    Result<u128, SessionError>)
    ensures
        match surplus {
            Ok(rest) => rest == attached - (storage_change * byte_cost + lock_amount),
            Err(e) => e == SessionError::InsufficientDeposit,
        },
        surplus is Ok <==> attached >= storage_change * byte_cost + lock_amount,
{
    match storage_change.checked_mul(byte_cost) {
        Some(storage_cost) => match storage_cost.checked_add(lock_amount) {
            Some(total_cost) => if attached >= total_cost {
                Ok(attached - total_cost)
            } else {
                Err(SessionError::InsufficientDeposit)
            },
            None => Err(SessionError::InsufficientDeposit),
        },
        None => Err(SessionError::InsufficientDeposit),
    }
}

/// At the host's price a refund fits the amount type, whatever was measured.
proof fn lemma_refund_fits(storage_prior: u64, storage_post: u64)
    ensures
        storage_refund(storage_prior as nat, storage_post as nat, STORAGE_PRICE_PER_BYTE as nat)
            <= u128::MAX,
{
    let freed = freed_bytes(storage_prior as nat, storage_post as nat);
    let price = STORAGE_PRICE_PER_BYTE as nat;
    assert(freed <= 0xFFFF_FFFF_FFFF_FFFF);
    assert(freed * price <= 0xFFFF_FFFF_FFFF_FFFF * price) by (nonlinear_arith)
        requires
            freed <= 0xFFFF_FFFF_FFFF_FFFF,
    ;
}

/// What a start for `caller` at `now` with `attached` funds does: where it
/// is granted, the ledger becomes what the model says and `outcome` holds
/// the payments of a granted start; where it is refused, `outcome` holds the
/// reason and the ledger is as it was.
pub open spec fn start_session_spec(
    before: Ledger,
    caller: Seq<char>,
    attached: nat,
    now: nat,
    after: Ledger,
    outcome: Result<Vec<Transfer>, SessionError>,
) -> bool {
    let byte_cost = STORAGE_PRICE_PER_BYTE as nat;
    match outcome {
        Ok(receipts) => {
            &&& before.start_outcome(caller, attached, now, byte_cost) == Ok::<
                Ledger,
                SessionError,
            >(after)
            &&& before.pays_start(caller, attached, now, byte_cost, payments(receipts@))
        },
        Err(reason) => {
            &&& before.start_outcome(caller, attached, now, byte_cost) == Err::<
                Ledger,
                SessionError,
            >(reason)
            &&& after == before
        },
    }
}

/// What an end for `caller` at `now` does: where it is granted, the ledger
/// becomes what the model says and `outcome` holds the payments of a granted
/// end; where it is refused, `outcome` holds the reason and the ledger is as
/// it was.
pub open spec fn end_session_spec(
    before: Ledger,
    caller: Seq<char>,
    success: bool,
    now: nat,
    after: Ledger,
    outcome: Result<Vec<Transfer>, SessionError>,
) -> bool {
    match outcome {
        Ok(receipts) => {
            &&& before.end_outcome(caller, success, now) == Ok::<Ledger, SessionError>(after)
            &&& before.pays_end(caller, success, STORAGE_PRICE_PER_BYTE as nat, payments(receipts@))
        },
        Err(reason) => {
            &&& before.end_outcome(caller, success, now) == Err::<Ledger, SessionError>(reason)
            &&& after == before
        },
    }
}

/// The escrow: the pool of forfeited deposits, the running sessions, and the
/// settings. No account runs two sessions, and every session locks the
/// configured deposit.
pub struct Contract {
    contract_confiscated_balance: u128,
    active_users: Vec<ActiveUsers>,
    lock_amount: u128,
    pomodoro_time_ms: u64,
    stale_time_ms: u64,
}

impl View for Contract {
    type V = Ledger;

    closed spec fn view(&self) -> Ledger {
        Ledger {
            confiscated_balance: self.contract_confiscated_balance as nat,
            active_users: sessions(self.active_users@),
            lock_amount: self.lock_amount as nat,
            pomodoro_time_ms: self.pomodoro_time_ms as nat,
            stale_time_ms: self.stale_time_ms as nat,
        }
    }
}

impl Contract {
    #[verifier::type_invariant]
    spec fn well_formed(self) -> bool {
        self@.wf()
    }

    /// An empty ledger that locks `lock_amount` for each session, with the
    /// default times.
    pub fn new(lock_amount: u128) -> (contract: Contract)
        ensures
            contract@ == (Ledger {
                confiscated_balance: 0,
                active_users: Seq::empty(),
                lock_amount: lock_amount as nat,
                pomodoro_time_ms: DEFAULT_POMODORO_TIME_MS as nat,
                stale_time_ms: DEFAULT_STALE_TIME_MS as nat,
            }),
    {
        Contract::with_times(lock_amount, DEFAULT_POMODORO_TIME_MS, DEFAULT_STALE_TIME_MS)
    }

    /// An empty ledger that locks `lock_amount` for each session, lets a
    /// session end successfully after `pomodoro_time_ms`, and sweeps it away
    /// after `stale_time_ms`.
    pub fn with_times(lock_amount: u128, pomodoro_time_ms: u64, stale_time_ms: u64) -> (contract:
        Contract)
        ensures
            contract@ == (Ledger {
                confiscated_balance: 0,
                active_users: Seq::empty(),
                lock_amount: lock_amount as nat,
                pomodoro_time_ms: pomodoro_time_ms as nat,
                stale_time_ms: stale_time_ms as nat,
            }),
    {
        let users: Vec<ActiveUsers> = Vec::new();
        assert(sessions(users@) =~= Seq::empty());
        Contract {
            contract_confiscated_balance: 0,
            active_users: users,
            lock_amount,
            pomodoro_time_ms,
            stale_time_ms,
        }
    }

    /// The pool of forfeited deposits.
    pub fn confiscated_balance(&self) -> (amount: u128)
        ensures
            amount == self@.confiscated_balance,
    {
        self.contract_confiscated_balance
    }

    /// The running sessions, in the ledger's order.
    pub fn active_users(&self) -> (users: &Vec<ActiveUsers>)
        ensures
            sessions(users@) == self@.active_users,
            self@.wf(),
    {
        proof {
            use_type_invariant(self);
        }
        &self.active_users
    }

    /// The deposit that every session locks.
    pub fn lock_amount(&self) -> (amount: u128)
        ensures
            amount == self@.lock_amount,
    {
        self.lock_amount
    }

    /// The time a session must last before it may end successfully.
    pub fn pomodoro_time_ms(&self) -> (time: u64)
        ensures
            time == self@.pomodoro_time_ms,
    {
        self.pomodoro_time_ms
    }

    /// The time after which the sweep takes a session away.
    pub fn stale_time_ms(&self) -> (time: u64)
        ensures
            time == self@.stale_time_ms,
    {
        self.stale_time_ms
    }

    /// Whether `user` is stale at `now`: whether `now` is past its start by
    /// more than the staleness timeout.
    pub fn is_stale(&self, user: &ActiveUsers, now: u64) -> (stale: bool)
        ensures
            stale == self@.is_stale(user@, now as nat),
    {
        match user.time_start.checked_add(self.stale_time_ms) {
            Some(deadline) => deadline < now,
            None => false,
        }
    }

    /// Whether `now` is too early for `user` to end successfully: whether it
    /// is before the start plus the pomodoro time.
    pub fn is_too_early(&self, user: &ActiveUsers, now: u64) -> (early: bool)
        ensures
            early == self@.is_too_early(user@, now as nat),
    {
        match user.time_start.checked_add(self.pomodoro_time_ms) {
            Some(earliest) => now < earliest,
            None => true,
        }
    }

    /// The place of the session that `account` runs.
    pub fn position(&self, account: &String) -> (found: Option<usize>)
        ensures
            match found {
                Some(i) => self@.is_session_of(i as int, account@) && i == self@.index_of(account@),
                None => !self@.is_active(account@),
            },
            found is Some <==> self@.is_active(account@),
    {
        proof {
            use_type_invariant(self);
        }
        let mut i: usize = 0;
        while i < self.active_users.len()
            invariant
                self@.wf(),
                i <= self.active_users.len(),
                forall|k: int| 0 <= k < i ==> !self@.is_session_of(k, account@),
            decreases self.active_users.len() - i,
        {
            if self.active_users[i].account == *account {
                proof {
                    self@.lemma_index_of(i as int, account@);
                }
                return Some(i);
            }
            i += 1;
        }
        None
    }

    /// Whether `account` runs a session that the sweep at `now` would keep.
    pub fn is_active_at(&self, account: &String, now: u64) -> (active: bool)
        ensures
            active == self@.swept(now as nat).is_active(account@),
    {
        proof {
            use_type_invariant(self);
            self@.lemma_swept_is_active(account@, now as nat);
        }
        match self.position(account) {
            Some(i) => !self.is_stale(&self.active_users[i], now),
            None => false,
        }
    }

    /// Takes the session at place `index` out of the ledger.
    fn take(&mut self, index: usize) -> (user: ActiveUsers)
        requires
            index < old(self)@.active_users.len(),
        ensures
            user@ == old(self)@.active_users[index as int],
            final(self)@ == old(self)@.without(index as int),
    {
        proof {
            use_type_invariant(&*self);
        }
        let mut users: Vec<ActiveUsers> = Vec::new();
        std::mem::swap(&mut users, &mut self.active_users);
        let user = users.remove(index);
        proof {
            assert(sessions(users@) =~= old(self)@.active_users.remove(index as int));
            old(self)@.lemma_without_is_wf(index as int);
        }
        self.active_users = users;
        user
    }

    /// Removes the session at place `index` and hands back the refund that
    /// its account is owed for the storage that the removal released: the
    /// storage is measured before and after, and the difference counts at the
    /// host's price for a byte.
    fn remove_active_user(&mut self, index: usize) -> (refund: Transfer)
        requires
            index < old(self)@.active_users.len(),
        ensures
            final(self)@ == old(self)@.without(index as int),
            refund@.to == old(self)@.active_users[index as int].account,
            is_storage_refund(refund@.amount, STORAGE_PRICE_PER_BYTE as nat),
    {
        let storage_prior = host::storage_usage();
        let user = self.take(index);
        let storage_post = host::storage_usage();
        let byte_cost = host::storage_byte_cost();
        proof {
            lemma_refund_fits(storage_prior, storage_post);
        }
        let amount = compute_storage_refund(storage_prior, storage_post, byte_cost);
        Transfer { to: user.account, amount }
    }

    /// The sweep at `now`: removes every session that is stale at `now` and
    /// hands back, for each, the refund that its account is owed for the
    /// storage released. The sessions are gone through from the last to the
    /// first, so that a removal moves none that is still to be looked at. The
    /// pool is left alone.
    pub fn prune_stale_users_internal(&mut self, now: u64) -> (refunds: Vec<Transfer>)
        ensures
            final(self)@ == old(self)@.swept(now as nat),
            final(self)@.wf(),
            old(self)@.refunds_sweep(
                now as nat,
                payments(refunds@),
                STORAGE_PRICE_PER_BYTE as nat,
            ),
    {
        proof {
            use_type_invariant(&*self);
        }
        let ghost before = self@;
        let ghost all = self@.active_users;
        let ghost fresh = fresh_at(before.stale_time_ms, now as nat);
        let ghost stale = stale_at(before.stale_time_ms, now as nat);
        let mut refunds: Vec<Transfer> = Vec::new();
        let mut i: usize = self.active_users.len();
        proof {
            assert(all.skip(i as int) =~= Seq::empty());
            reveal(Seq::filter);
            assert(all.take(i as int) + all.skip(i as int).filter(fresh) =~= all);
        }
        while i > 0
            invariant
                before == old(self)@,
                all == before.active_users,
                fresh == fresh_at(before.stale_time_ms, now as nat),
                stale == stale_at(before.stale_time_ms, now as nat),
                i <= all.len(),
                self@.wf(),
                self@ == (Ledger {
                    active_users: all.take(i as int) + all.skip(i as int).filter(fresh),
                    ..before
                }),
                refunds@.len() == all.skip(i as int).filter(stale).len(),
                forall|k: int|
                    0 <= k < refunds@.len() ==> {
                        &&& (#[trigger] refunds@[k])@.to == all.skip(i as int).filter(stale)[
                            refunds@.len() - 1 - k
                        ].account
                        &&& is_storage_refund(refunds@[k]@.amount, STORAGE_PRICE_PER_BYTE as nat)
                    },
            decreases i,
        {
            let ghost kept_tail = all.skip(i as int).filter(fresh);
            let ghost stale_tail = all.skip(i as int).filter(stale);
            let ghost current = self@.active_users;
            i = i - 1;
            proof {
                assert(all.skip(i as int) =~= seq![all[i as int]] + all.skip(i as int + 1));
                all.skip(i as int + 1).lemma_filter_prepend(all[i as int], fresh);
                all.skip(i as int + 1).lemma_filter_prepend(all[i as int], stale);
                assert(current[i as int] == all[i as int]);
                assert(sessions(self.active_users@) == current);
            }
            if self.is_stale(&self.active_users[i], now) {
                let refund = self.remove_active_user(i);
                proof {
                    use_type_invariant(&*self);
                    assert(current.remove(i as int) =~= all.take(i as int) + kept_tail);
                    assert(all.skip(i as int).filter(stale) =~= seq![all[i as int]] + stale_tail);
                }
                let ghost earlier = refunds@;
                refunds.push(refund);
                assert forall|k: int| 0 <= k < refunds@.len() implies {
                    &&& (#[trigger] refunds@[k])@.to == all.skip(i as int).filter(stale)[
                        refunds@.len() - 1 - k
                    ].account
                    &&& is_storage_refund(refunds@[k]@.amount, STORAGE_PRICE_PER_BYTE as nat)
                } by {
                    if k < earlier.len() {
                        assert(refunds@[k] == earlier[k]);
                    }
                }
            } else {
                proof {
                    assert(current =~= all.take(i as int) + (seq![all[i as int]] + kept_tail));
                    assert(all.skip(i as int).filter(stale) =~= stale_tail);
                }
            }
        }
        proof {
            assert(all.skip(0) =~= all);
            assert(all.take(0) + all.filter(fresh) =~= all.filter(fresh));
            assert(payments(refunds@).len() == refunds@.len());
        }
        refunds
    }

    /// Checks that `attached` covers the storage of `storage_change` bytes
    /// and the deposit, and hands back the transfer of what is left over to
    /// `refund_to`. Where it does not cover them, no transfer is due.
    pub fn check_attached_amount(&self, attached: u128, storage_change: u128, refund_to: &String) -> (surplus:
        Result<Transfer, SessionError>)
        ensures
            match surplus {
                Ok(transfer) => transfer@ == (Payment {
                    to: refund_to@,
                    amount: (attached - (storage_change * STORAGE_PRICE_PER_BYTE
                        + self@.lock_amount)) as nat,
                }),
                Err(reason) => reason == SessionError::InsufficientDeposit,
            },
            surplus is Ok <==> attached >= storage_change * STORAGE_PRICE_PER_BYTE
                + self@.lock_amount,
    {
        let byte_cost = host::storage_byte_cost();
        match deposit_surplus(attached, storage_change, byte_cost, self.lock_amount) {
            Ok(rest) => Ok(Transfer { to: refund_to.clone(), amount: rest }),
            Err(reason) => Err(reason),
        }
    }

    /// Starts a session for `caller` at `now`, with `attached` funds.
    ///
    /// The start is refused with `AlreadyActive` where `caller` runs a
    /// session that is not stale at `now`, and else with
    /// `InsufficientDeposit` where `attached` is less than the storage cost
    /// of the new record plus the deposit. Both are decided before anything
    /// is changed, so a refused start leaves no session behind and no
    /// transfer to make.
    ///
    /// A granted start sweeps the stale sessions away and records the new
    /// session with the deposit locked. It hands back the transfers to make:
    /// the surplus to `caller`, then the refunds of the sweep.
    pub fn start_session_for(&mut self, caller: String, attached: u128, now: u64) -> (outcome:
        Result<Vec<Transfer>, SessionError>)
        ensures
            start_session_spec(
                old(self)@,
                caller@,
                attached as nat,
                now as nat,
                final(self)@,
                outcome,
            ),
            final(self)@.wf(),
    {
        proof {
            use_type_invariant(&*self);
        }
        if self.is_active_at(&caller, now) {
            return Err(SessionError::AlreadyActive);
        }
        let storage_change = session_record_bytes(&caller);
        let surplus = match self.check_attached_amount(attached, storage_change, &caller) {
            Ok(transfer) => transfer,
            Err(reason) => {
                return Err(reason);
            },
        };
        let mut receipts: Vec<Transfer> = Vec::new();
        receipts.push(surplus);
        let mut refunds = self.prune_stale_users_internal(now);
        let ghost swept_refunds = refunds@;
        receipts.append(&mut refunds);
        let user = ActiveUsers { account: caller, time_start: now, locked_amount: self.lock_amount };
        let mut users: Vec<ActiveUsers> = Vec::new();
        std::mem::swap(&mut users, &mut self.active_users);
        users.push(user);
        proof {
            let swept = old(self)@.swept(now as nat);
            assert(sessions(users@) =~= swept.admitted(caller@, now as nat).active_users);
            swept.lemma_admitted_is_wf(caller@, now as nat);
            assert(payments(receipts@).skip(1) =~= payments(swept_refunds));
        }
        self.active_users = users;
        Ok(receipts)
    }

    /// Ends the session of `caller` at `now`.
    ///
    /// The end is refused with `NotActive` where `caller` runs no session,
    /// and a successful one with `TooEarly` where `now` is before the
    /// session's start plus the pomodoro time. A refused end changes
    /// nothing.
    ///
    /// A successful end owes the whole pool to `caller` and empties it; a
    /// failed one adds the session's deposit to the pool. Either way the
    /// session is removed and `caller` is owed the refund for its storage.
    /// The transfers to make are handed back: the pool first, where it is
    /// owed, then the refund.
    ///
    /// A failed end of a running session needs the pool and the deposit to
    /// fit the amount type together.
    pub fn end_session_for(&mut self, caller: &String, success: bool, now: u64) -> (outcome: Result<
        Vec<Transfer>,
        SessionError,
    >)
        requires
            !success && old(self)@.is_active(caller@) ==> old(self)@.confiscated_balance + old(
                self,
            )@.lock_amount <= u128::MAX,
        ensures
            end_session_spec(old(self)@, caller@, success, now as nat, final(self)@, outcome),
            final(self)@.wf(),
    {
        proof {
            use_type_invariant(&*self);
        }
        let index = match self.position(caller) {
            Some(i) => i,
            None => {
                return Err(SessionError::NotActive);
            },
        };
        let mut receipts: Vec<Transfer> = Vec::new();
        if success {
            if self.is_too_early(&self.active_users[index], now) {
                return Err(SessionError::TooEarly);
            }
            receipts.push(Transfer { to: caller.clone(), amount: self.contract_confiscated_balance });
            self.contract_confiscated_balance = 0;
        } else {
            let forfeit = self.active_users[index].locked_amount;
            self.contract_confiscated_balance = self.contract_confiscated_balance + forfeit;
        }
        let refund = self.remove_active_user(index);
        receipts.push(refund);
        proof {
            use_type_invariant(&*self);
        }
        Ok(receipts)
    }

    /// Puts a ledger together from its parts, as they were taken from one
    /// before: `None` where two of the sessions share an account, or one of
    /// them locks another amount than `lock_amount`.
    pub fn restore(
        contract_confiscated_balance: u128,
        active_users: Vec<ActiveUsers>,
        lock_amount: u128,
        pomodoro_time_ms: u64,
        stale_time_ms: u64,
    ) -> (restored: Option<Contract>)
        ensures
            match restored {
                Some(contract) => contract@ == (Ledger {
                    confiscated_balance: contract_confiscated_balance as nat,
                    active_users: sessions(active_users@),
                    lock_amount: lock_amount as nat,
                    pomodoro_time_ms: pomodoro_time_ms as nat,
                    stale_time_ms: stale_time_ms as nat,
                }) && contract@.wf(),
                None => !(Ledger {
                    confiscated_balance: contract_confiscated_balance as nat,
                    active_users: sessions(active_users@),
                    lock_amount: lock_amount as nat,
                    pomodoro_time_ms: pomodoro_time_ms as nat,
                    stale_time_ms: stale_time_ms as nat,
                }).wf(),
            },
    {
        let ghost ledger = Ledger {
            confiscated_balance: contract_confiscated_balance as nat,
            active_users: sessions(active_users@),
            lock_amount: lock_amount as nat,
            pomodoro_time_ms: pomodoro_time_ms as nat,
            stale_time_ms: stale_time_ms as nat,
        };
        let mut j: usize = 0;
        while j < active_users.len()
            invariant
                j <= active_users.len(),
                ledger == (Ledger {
                    confiscated_balance: contract_confiscated_balance as nat,
                    active_users: sessions(active_users@),
                    lock_amount: lock_amount as nat,
                    pomodoro_time_ms: pomodoro_time_ms as nat,
                    stale_time_ms: stale_time_ms as nat,
                }),
                forall|a: int, b: int|
                    0 <= a < b < j ==> (#[trigger] ledger.active_users[a]).account != (
                    #[trigger] ledger.active_users[b]).account,
                forall|a: int|
                    0 <= a < j ==> (#[trigger] ledger.active_users[a]).locked_amount
                        == ledger.lock_amount,
            decreases active_users.len() - j,
        {
            if active_users[j].locked_amount != lock_amount {
                assert(ledger.active_users[j as int].locked_amount != ledger.lock_amount);
                assert(!ledger.wf());
                return None;
            }
            let mut i: usize = 0;
            while i < j
                invariant
                    i <= j,
                    j < active_users.len(),
                    ledger == (Ledger {
                        confiscated_balance: contract_confiscated_balance as nat,
                        active_users: sessions(active_users@),
                        lock_amount: lock_amount as nat,
                        pomodoro_time_ms: pomodoro_time_ms as nat,
                        stale_time_ms: stale_time_ms as nat,
                    }),
                    forall|a: int|
                        0 <= a < i ==> (#[trigger] ledger.active_users[a]).account
                            != ledger.active_users[j as int].account,
                decreases j - i,
            {
                if active_users[i].account == active_users[j].account {
                    assert(ledger.active_users[i as int].account
                        == ledger.active_users[j as int].account);
                    assert(!ledger.wf());
                    return None;
                }
                i += 1;
            }
            j += 1;
        }
        Some(
            Contract {
                contract_confiscated_balance,
                active_users,
                lock_amount,
                pomodoro_time_ms,
                stale_time_ms,
            },
        )
    }
}

/// The operations of the escrow as the host calls them: who calls, when, and
/// with what funds is asked of the host. Each hands back the transfers that
/// it has decided on, for its caller to ask of the host.
pub trait PaymadoroFN {
    /// The ledger that the contracts below speak of.
    spec fn ledger(&self) -> Ledger;

    /// Start a session for the calling account, at the block's time, with
    /// the funds attached to the call.
    fn start_session(&mut self) -> (outcome: Result<Vec<Transfer>, SessionError>)
        ensures
            exists|caller: Seq<char>, attached: nat, now: nat| #[trigger]
                start_session_spec(
                    old(self).ledger(),
                    caller,
                    attached,
                    now,
                    final(self).ledger(),
                    outcome,
                ),
            final(self).ledger().wf(),
    ;

    /// End the session of the calling account, at the block's time.
    fn end_session(&mut self, success: bool) -> (outcome: Result<Vec<Transfer>, SessionError>)
        requires
            !success && old(self).ledger().active_users.len() > 0 ==> old(
                self,
            ).ledger().confiscated_balance + old(self).ledger().lock_amount <= u128::MAX,
        ensures
            exists|caller: Seq<char>, now: nat| #[trigger]
                end_session_spec(
                    old(self).ledger(),
                    caller,
                    success,
                    now,
                    final(self).ledger(),
                    outcome,
                ),
            final(self).ledger().wf(),
    ;

    /// Get all active users, in the ledger's order.
    fn get_active_users(&self) -> (accounts: Vec<String>)
        ensures
            accounts@.map_values(|a: String| a@) == self.ledger().accounts(),
    ;

    /// Remove the sessions that were never ended: those that are stale at
    /// the block's time. Each account is owed a refund for its storage; the pool
    /// is left alone.
    fn prune_stale_users(&mut self) -> (refunds: Vec<Transfer>)
        ensures
            exists|now: nat|
                {
                    &&& final(self).ledger() == #[trigger] old(self).ledger().swept(now)
                    &&& old(self).ledger().refunds_sweep(
                        now,
                        payments(refunds@),
                        STORAGE_PRICE_PER_BYTE as nat,
                    )
                },
            final(self).ledger().wf(),
    ;
}

impl PaymadoroFN for Contract {
    open spec fn ledger(&self) -> Ledger {
        self@
    }

    fn start_session(&mut self) -> (outcome: Result<Vec<Transfer>, SessionError>) {
        let now = host::block_timestamp_ms();
        let caller = host::predecessor_account_id();
        let attached = host::attached_deposit();
        let ghost account = caller@;
        let outcome = self.start_session_for(caller, attached, now);
        assert(start_session_spec(
            old(self).ledger(),
            account,
            attached as nat,
            now as nat,
            self.ledger(),
            outcome,
        ));
        outcome
    }

    fn end_session(&mut self, success: bool) -> (outcome: Result<Vec<Transfer>, SessionError>) {
        let now = host::block_timestamp_ms();
        let caller = host::predecessor_account_id();
        let outcome = self.end_session_for(&caller, success, now);
        assert(end_session_spec(
            old(self).ledger(),
            caller@,
            success,
            now as nat,
            self.ledger(),
            outcome,
        ));
        outcome
    }

    fn get_active_users(&self) -> (accounts: Vec<String>) {
        let mut accounts: Vec<String> = Vec::new();
        let mut i: usize = 0;
        while i < self.active_users.len()
            invariant
                i <= self.active_users.len(),
                accounts@.len() == i,
                forall|k: int|
                    0 <= k < i ==> (#[trigger] accounts@[k])@ == self.active_users@[k].account@,
            decreases self.active_users.len() - i,
        {
            accounts.push(self.active_users[i].account.clone());
            i += 1;
        }
        assert(accounts@.map_values(|a: String| a@) =~= self@.accounts());
        accounts
    }

    fn prune_stale_users(&mut self) -> (refunds: Vec<Transfer>) {
        let now = host::block_timestamp_ms();
        let refunds = self.prune_stale_users_internal(now);
        assert(self.ledger() == old(self).ledger().swept(now as nat));
        refunds
    }
}

} // verus!
