//! What holds of the escrow whatever the host answers, proved of the model
//! that the operations are specified against.

use vstd::prelude::*;
use crate::model::{
    freed_bytes, fresh_at, stale_at, storage_refund, Ledger, Payment, Session, SessionError,
};

verus! {

/// No double admission. After a granted start for `caller` at `first`, the
/// ledger holds exactly one session of `caller`; and a second start for
/// `caller`, at any time `second` at which that session is not stale and
/// with any funds, is refused with `AlreadyActive`.
pub proof fn law_no_double_admission(
    ledger: Ledger,
    caller: Seq<char>,
    attached: nat,
    first: nat,
    again: nat,
    second: nat,
    byte_cost: nat,
)
    requires
        ledger.wf(),
        ledger.start_outcome(caller, attached, first, byte_cost) is Ok,
        second <= first + ledger.stale_time_ms,
    ensures
        ({
            let started = ledger.start_outcome(caller, attached, first, byte_cost)->Ok_0;
            &&& started.wf()
            &&& started.has_one_session(caller)
            &&& started.start_outcome(caller, again, second, byte_cost) == Err::<
                Ledger,
                SessionError,
            >(SessionError::AlreadyActive)
        }),
{
    let swept = ledger.swept(first);
    let started = swept.admitted(caller, first);
    let last = swept.active_users.len() as int;
    ledger.lemma_swept_is_wf(first);
    swept.lemma_admitted_is_wf(caller, first);
    assert(started.is_session_of(last, caller));
    started.lemma_index_of(last, caller);
    assert forall|j: int| #[trigger] started.is_session_of(j, caller) implies j == last by {
        started.lemma_index_of(j, caller);
    }
    started.lemma_swept_is_active(caller, second);
}

/// Deposit conservation, for a failed session: the pool grows by exactly
/// the configured deposit.
pub proof fn law_failure_forfeits_deposit(ledger: Ledger, caller: Seq<char>, now: nat)
    requires
        ledger.wf(),
        ledger.is_active(caller),
    ensures
        ledger.end_outcome(caller, false, now) is Ok,
        ledger.end_outcome(caller, false, now)->Ok_0.confiscated_balance
            == ledger.confiscated_balance + ledger.lock_amount,
{
    let i = ledger.index_of(caller);
    assert(ledger.is_session_of(i, caller));
}

/// Deposit conservation, for a successful session: the pool returns to
/// zero, and the first payment hands the whole pool, as it stood before, to
/// the caller.
pub proof fn law_success_pays_pool(
    ledger: Ledger,
    caller: Seq<char>,
    now: nat,
    byte_cost: nat,
    payments: Seq<Payment>,
)
    requires
        ledger.wf(),
        ledger.end_outcome(caller, true, now) is Ok,
        ledger.pays_end(caller, true, byte_cost, payments),
    ensures
        ledger.end_outcome(caller, true, now)->Ok_0.confiscated_balance == 0,
        payments[0] == (Payment { to: caller, amount: ledger.confiscated_balance }),
{
}

/// Staleness neutrality: the sweep never changes the pool, nor the
/// settings, and what it leaves is a well-formed ledger without stale
/// sessions.
pub proof fn law_sweep_is_neutral(ledger: Ledger, now: nat)
    requires
        ledger.wf(),
    ensures
        ledger.swept(now).confiscated_balance == ledger.confiscated_balance,
        ledger.swept(now).lock_amount == ledger.lock_amount,
        ledger.swept(now).pomodoro_time_ms == ledger.pomodoro_time_ms,
        ledger.swept(now).stale_time_ms == ledger.stale_time_ms,
        ledger.swept(now).wf(),
        forall|i: int|
            0 <= i < ledger.swept(now).active_users.len() ==> !ledger.is_stale(
                #[trigger] ledger.swept(now).active_users[i],
                now,
            ),
{
    ledger.lemma_swept_is_wf(now);
    broadcast use vstd::seq_lib::group_filter_ensures;

}

/// The sweep is idempotent: a second sweep at the same time finds nothing
/// to remove.
pub proof fn law_sweep_is_idempotent(ledger: Ledger, now: nat)
    ensures
        ledger.swept(now).swept(now) == ledger.swept(now),
        ledger.swept(now).stale_sessions(now).len() == 0,
{
    let fresh = fresh_at(ledger.stale_time_ms, now);
    let kept = ledger.active_users.filter(fresh);
    assert forall|i: int| 0 <= i < kept.len() implies fresh(#[trigger] kept[i]) by {
        ledger.active_users.lemma_filter_pred(fresh, i);
    }
    lemma_all_fresh(kept, ledger.stale_time_ms, now);
}

/// A sequence of sessions none of which is stale is its own filter by
/// freshness, and holds no stale session.
proof fn lemma_all_fresh(items: Seq<Session>, stale_time_ms: nat, now: nat)
    requires
        forall|i: int| 0 <= i < items.len() ==> fresh_at(stale_time_ms, now)(#[trigger] items[i]),
    ensures
        items.filter(fresh_at(stale_time_ms, now)) == items,
        items.filter(stale_at(stale_time_ms, now)).len() == 0,
    decreases items.len(),
{
    reveal(Seq::filter);
    if items.len() > 0 {
        lemma_all_fresh(items.drop_last(), stale_time_ms, now);
        assert(fresh_at(stale_time_ms, now)(items[items.len() - 1]));
        assert(items.drop_last().push(items.last()) =~= items);
    }
}

/// Early-end rejection: a successful end strictly before the session's
/// start plus the pomodoro time comes to `TooEarly`.
pub proof fn law_early_end_is_refused(ledger: Ledger, caller: Seq<char>, now: nat)
    requires
        ledger.wf(),
        ledger.is_active(caller),
        now < ledger.active_users[ledger.index_of(caller)].time_start + ledger.pomodoro_time_ms,
    ensures
        ledger.end_outcome(caller, true, now) == Err::<Ledger, SessionError>(
            SessionError::TooEarly,
        ),
{
}

/// Storage refund monotonicity: a refund is never negative, it is the
/// bytes freed times the price, it is nothing where no byte was freed, and
/// more bytes freed never earn less.
pub proof fn law_storage_refund_is_monotonic(
    prior_a: nat,
    post_a: nat,
    prior_b: nat,
    post_b: nat,
    byte_cost: nat,
)
    requires
        freed_bytes(prior_a, post_a) <= freed_bytes(prior_b, post_b),
    ensures
        storage_refund(prior_a, post_a, byte_cost) >= 0,
        storage_refund(prior_a, post_a, byte_cost) == freed_bytes(prior_a, post_a) * byte_cost,
        freed_bytes(prior_a, post_a) == 0 ==> storage_refund(prior_a, post_a, byte_cost) == 0,
        storage_refund(prior_a, post_a, byte_cost) <= storage_refund(prior_b, post_b, byte_cost),
{
    let a = freed_bytes(prior_a, post_a);
    let b = freed_bytes(prior_b, post_b);
    assert(a * byte_cost <= b * byte_cost) by (nonlinear_arith)
        requires
            a <= b,
    ;
    assert(0 * byte_cost == 0);
}

} // verus!
