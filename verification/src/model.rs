//! The mathematical model of the escrow: what a ledger is, and what each
//! operation makes of it. The executable code is specified against this
//! model, and the laws of the escrow are proved of it.

use vstd::prelude::*;

verus! {

/// Why an operation was refused. A refused operation changes nothing.
#[derive(Clone, Copy, Debug, PartialEq, Eq, Structural)]
pub enum SessionError {
    /// A start was asked for an account that runs a session.
    AlreadyActive,
    /// The attached funds do not cover the storage cost and the deposit.
    InsufficientDeposit,
    /// An end was asked for an account that runs no session.
    NotActive,
    /// A successful end was asked before the session had lasted long enough.
    TooEarly,
}

/// One participant's timed commitment with its locked deposit.
pub struct Session {
    pub account: Seq<char>,
    pub time_start: nat,
    pub locked_amount: nat,
}

/// A transfer that the escrow has decided on: `amount` to the account `to`.
pub struct Payment {
    pub to: Seq<char>,
    pub amount: nat,
}

/// The escrow's whole state: the pool of forfeited deposits, the sessions
/// that are running, and the three settings fixed at construction.
pub struct Ledger {
    pub confiscated_balance: nat,
    pub active_users: Seq<Session>,
    pub lock_amount: nat,
    pub pomodoro_time_ms: nat,
    pub stale_time_ms: nat,
}

/// The bytes that one session record takes in the persisted state: a
/// four-byte length, the account's UTF-8 bytes, the eight-byte start time
/// and the sixteen-byte amount.
pub open spec fn record_bytes(account: Seq<char>) -> nat {
    28 + vstd::utf8::encode_utf8(account).len()
}

/// The bytes released between a measurement before and one after.
pub open spec fn freed_bytes(storage_prior: nat, storage_post: nat) -> nat {
    if storage_prior >= storage_post {
        (storage_prior - storage_post) as nat
    } else {
        0
    }
}

/// The refund owed for the storage released between two measurements: the
/// bytes freed times the price of one byte.
pub open spec fn storage_refund(storage_prior: nat, storage_post: nat, byte_cost: nat) -> nat {
    freed_bytes(storage_prior, storage_post) * byte_cost
}

/// The test that picks the sessions that are stale at `now` under the
/// timeout `stale_time_ms`.
pub open spec fn stale_at(stale_time_ms: nat, now: nat) -> spec_fn(Session) -> bool {
    |s: Session| now > s.time_start + stale_time_ms
}

/// The test that picks the sessions that are not stale at `now` under the
/// timeout `stale_time_ms`.
pub open spec fn fresh_at(stale_time_ms: nat, now: nat) -> spec_fn(Session) -> bool {
    |s: Session| !(now > s.time_start + stale_time_ms)
}

/// Whether `amount` is the refund for some pair of storage measurements at
/// the price `byte_cost`.
pub open spec fn is_storage_refund(amount: nat, byte_cost: nat) -> bool {
    exists|storage_prior: u64, storage_post: u64|
        amount == #[trigger] storage_refund(storage_prior as nat, storage_post as nat, byte_cost)
}

impl Ledger {
    /// No account runs two sessions, and every session locks the configured
    /// deposit.
    pub open spec fn wf(self) -> bool {
        &&& forall|i: int, j: int|
            0 <= i < j < self.active_users.len() ==> (#[trigger] self.active_users[i]).account != (
            #[trigger] self.active_users[j]).account
        &&& forall|i: int|
            0 <= i < self.active_users.len() ==> (#[trigger] self.active_users[i]).locked_amount
                == self.lock_amount
    }

    /// The accounts of the running sessions, in the ledger's order.
    pub open spec fn accounts(self) -> Seq<Seq<char>> {
        self.active_users.map_values(|s: Session| s.account)
    }

    /// Whether `i` is the place of the session that `account` runs.
    pub open spec fn is_session_of(self, i: int, account: Seq<char>) -> bool {
        0 <= i < self.active_users.len() && self.active_users[i].account == account
    }

    /// Whether `account` runs a session.
    pub open spec fn is_active(self, account: Seq<char>) -> bool {
        exists|i: int| self.is_session_of(i, account)
    }

    /// The place of the session that `account` runs, where it runs one.
    pub open spec fn index_of(self, account: Seq<char>) -> int {
        choose|i: int| self.is_session_of(i, account)
    }

    /// Whether `account` runs exactly one session.
    pub open spec fn has_one_session(self, account: Seq<char>) -> bool {
        exists|i: int|
            {
                &&& #[trigger] self.is_session_of(i, account)
                &&& forall|j: int| #[trigger] self.is_session_of(j, account) ==> j == i
            }
    }

    /// A session is stale once the clock has passed its start by more than
    /// the staleness timeout.
    pub open spec fn is_stale(self, s: Session, now: nat) -> bool {
        now > s.time_start + self.stale_time_ms
    }

    /// A session may end successfully from `time_start + pomodoro_time_ms`
    /// on, and not before.
    pub open spec fn is_too_early(self, s: Session, now: nat) -> bool {
        now < s.time_start + self.pomodoro_time_ms
    }

    /// The sessions that are stale at `now`, in the ledger's order.
    pub open spec fn stale_sessions(self, now: nat) -> Seq<Session> {
        self.active_users.filter(stale_at(self.stale_time_ms, now))
    }

    /// The ledger after the sweep at `now`: the stale sessions are gone, the
    /// others keep their order, and nothing else has changed.
    pub open spec fn swept(self, now: nat) -> Ledger {
        Ledger { active_users: self.active_users.filter(fresh_at(self.stale_time_ms, now)), ..self }
    }

    /// The ledger with the session at place `i` taken out.
    pub open spec fn without(self, i: int) -> Ledger {
        Ledger { active_users: self.active_users.remove(i), ..self }
    }

    /// The ledger with a new session of `account`, started at `now` with the
    /// configured deposit locked, behind the others.
    pub open spec fn admitted(self, account: Seq<char>, now: nat) -> Ledger {
        Ledger {
            active_users: self.active_users.push(
                Session { account, time_start: now, locked_amount: self.lock_amount },
            ),
            ..self
        }
    }

    /// The ledger after the session at place `i` has failed: its deposit has
    /// gone to the pool.
    pub open spec fn forfeited(self, i: int) -> Ledger {
        Ledger {
            confiscated_balance: self.confiscated_balance + self.active_users[i].locked_amount,
            ..self.without(i)
        }
    }

    /// The ledger after the session at place `i` has succeeded: the pool has
    /// been paid out in full.
    pub open spec fn paid_out(self, i: int) -> Ledger {
        Ledger { confiscated_balance: 0, ..self.without(i) }
    }

    /// What a new session costs at the price `byte_cost`: the storage of its
    /// record, and the deposit.
    pub open spec fn admission_cost(self, account: Seq<char>, byte_cost: nat) -> nat {
        record_bytes(account) * byte_cost + self.lock_amount
    }

    /// What a start for `caller` at `now` with `attached` funds comes to: the
    /// next ledger, or the reason for the refusal. The sweep comes first, so
    /// a caller whose session is stale at `now` is admitted anew.
    pub open spec fn start_outcome(
        self,
        caller: Seq<char>,
        attached: nat,
        now: nat,
        byte_cost: nat,
    ) -> Result<Ledger, SessionError> {
        if self.swept(now).is_active(caller) {
            Err(SessionError::AlreadyActive)
        } else if attached < self.admission_cost(caller, byte_cost) {
            Err(SessionError::InsufficientDeposit)
        } else {
            Ok(self.swept(now).admitted(caller, now))
        }
    }

    /// What an end for `caller` at `now` comes to: the next ledger, or the
    /// reason for the refusal.
    pub open spec fn end_outcome(self, caller: Seq<char>, success: bool, now: nat) -> Result<
        Ledger,
        SessionError,
    > {
        if !self.is_active(caller) {
            Err(SessionError::NotActive)
        } else if success && self.is_too_early(self.active_users[self.index_of(caller)], now) {
            Err(SessionError::TooEarly)
        } else if success {
            Ok(self.paid_out(self.index_of(caller)))
        } else {
            Ok(self.forfeited(self.index_of(caller)))
        }
    }

    /// Whether `refunds` are the storage refunds of the sweep at `now`: one
    /// for each stale session, to its account, the last stale session first.
    pub open spec fn refunds_sweep(self, now: nat, refunds: Seq<Payment>, byte_cost: nat) -> bool {
        let stale = self.stale_sessions(now);
        &&& refunds.len() == stale.len()
        &&& forall|k: int|
            0 <= k < refunds.len() ==> {
                &&& (#[trigger] refunds[k]).to == stale[stale.len() - 1 - k].account
                &&& is_storage_refund(refunds[k].amount, byte_cost)
            }
    }

    /// Whether `payments` are what a granted start for `caller` pays: the
    /// surplus of `attached` over the admission cost back to the caller,
    /// then the storage refunds of the sweep.
    pub open spec fn pays_start(
        self,
        caller: Seq<char>,
        attached: nat,
        now: nat,
        byte_cost: nat,
        payments: Seq<Payment>,
    ) -> bool {
        &&& payments.len() >= 1
        &&& payments[0] == Payment {
            to: caller,
            amount: (attached - self.admission_cost(caller, byte_cost)) as nat,
        }
        &&& self.refunds_sweep(now, payments.skip(1), byte_cost)
    }

    /// Whether `payments` are what a granted end for `caller` pays. A
    /// success pays the whole pool to the caller; either way the caller then
    /// gets the storage refund for the record.
    pub open spec fn pays_end(
        self,
        caller: Seq<char>,
        success: bool,
        byte_cost: nat,
        payments: Seq<Payment>,
    ) -> bool {
        if success {
            &&& payments.len() == 2
            &&& payments[0] == Payment { to: caller, amount: self.confiscated_balance }
            &&& payments[1].to == caller
            &&& is_storage_refund(payments[1].amount, byte_cost)
        } else {
            &&& payments.len() == 1
            &&& payments[0].to == caller
            &&& is_storage_refund(payments[0].amount, byte_cost)
        }
    }

    /// In a well-formed ledger an account's session has one place.
    pub proof fn lemma_index_of(self, i: int, account: Seq<char>)
        requires
            self.wf(),
            self.is_session_of(i, account),
        ensures
            self.is_active(account),
            self.index_of(account) == i,
    {
        let j = self.index_of(account);
        assert(self.is_session_of(j, account));
        if i < j {
            assert(self.active_users[i].account != self.active_users[j].account);
        } else if j < i {
            assert(self.active_users[j].account != self.active_users[i].account);
        }
    }

    /// Taking a session out of a well-formed ledger leaves it well-formed.
    pub proof fn lemma_without_is_wf(self, i: int)
        requires
            self.wf(),
            0 <= i < self.active_users.len(),
        ensures
            self.without(i).wf(),
    {
        let rest = self.active_users.remove(i);
        assert forall|a: int, b: int| 0 <= a < b < rest.len() implies (#[trigger] rest[a]).account
            != (#[trigger] rest[b]).account by {
            let a0 = if a < i { a } else { a + 1 };
            let b0 = if b < i { b } else { b + 1 };
            assert(rest[a] == self.active_users[a0]);
            assert(rest[b] == self.active_users[b0]);
        }
        assert forall|a: int| 0 <= a < rest.len() implies (#[trigger] rest[a]).locked_amount
            == self.lock_amount by {
            let a0 = if a < i { a } else { a + 1 };
            assert(rest[a] == self.active_users[a0]);
        }
    }

    /// The sweep leaves a well-formed ledger well-formed.
    pub proof fn lemma_swept_is_wf(self, now: nat)
        requires
            self.wf(),
        ensures
            self.swept(now).wf(),
        decreases self.active_users.len(),
    {
        let fresh = fresh_at(self.stale_time_ms, now);
        let kept = self.active_users.filter(fresh);
        reveal(Seq::filter);
        if self.active_users.len() > 0 {
            let last = self.active_users.last();
            let front = Ledger { active_users: self.active_users.drop_last(), ..self };
            assert(front.wf());
            front.lemma_swept_is_wf(now);
            let front_kept = front.active_users.filter(fresh);
            if fresh(last) {
                assert(kept == front_kept.push(last));
                assert forall|a: int| 0 <= a < front_kept.len() implies (#[trigger] front_kept[a]).account
                    != last.account by {
                    assert(front_kept.contains(front_kept[a]));
                    front.active_users.lemma_filter_contains_rev(fresh, front_kept[a]);
                    let k = choose|k: int|
                        0 <= k < front.active_users.len() && front.active_users[k] == front_kept[a];
                    assert(self.active_users[k] == front_kept[a]);
                    assert(self.active_users[k].account != self.active_users[self.active_users.len()
                        - 1].account);
                }
                assert(front.swept(now).active_users == front_kept);
            } else {
                assert(kept == front_kept);
            }
        }
    }

    /// After the sweep, the accounts that run a session are those that ran
    /// one before and whose session is not stale.
    pub proof fn lemma_swept_is_active(self, account: Seq<char>, now: nat)
        requires
            self.wf(),
        ensures
            self.swept(now).is_active(account) <==> self.is_active(account) && !self.is_stale(
                self.active_users[self.index_of(account)],
                now,
            ),
    {
        let fresh = fresh_at(self.stale_time_ms, now);
        let kept = self.active_users.filter(fresh);
        if self.swept(now).is_active(account) {
            let j = choose|j: int| self.swept(now).is_session_of(j, account);
            assert(kept.contains(kept[j]));
            self.active_users.lemma_filter_contains_rev(fresh, kept[j]);
            self.active_users.lemma_filter_pred(fresh, j);
            let i = choose|i: int| 0 <= i < self.active_users.len() && self.active_users[i] == kept[j];
            assert(self.is_session_of(i, account));
            self.lemma_index_of(i, account);
        }
        if self.is_active(account) && !self.is_stale(self.active_users[self.index_of(account)], now) {
            let i = self.index_of(account);
            assert(self.is_session_of(i, account));
            assert(fresh(self.active_users[i]));
            self.active_users.lemma_filter_contains(fresh, i);
            let j = choose|j: int| 0 <= j < kept.len() && kept[j] == self.active_users[i];
            assert(self.swept(now).is_session_of(j, account));
        }
    }

    /// Admitting an account that runs no session leaves a well-formed ledger
    /// well-formed.
    pub proof fn lemma_admitted_is_wf(self, account: Seq<char>, now: nat)
        requires
            self.wf(),
            !self.is_active(account),
        ensures
            self.admitted(account, now).wf(),
    {
        let next = self.admitted(account, now).active_users;
        let last = self.active_users.len() as int;
        assert forall|a: int, b: int| 0 <= a < b < next.len() implies (#[trigger] next[a]).account
            != (#[trigger] next[b]).account by {
            if b == last {
                assert(!self.is_session_of(a, account));
            }
        }
    }
}

} // verus!
