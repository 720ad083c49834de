use crate::error::EscrowError;
use crate::model::{
    after_claim, after_deposit, claim_rejection, claimed_amount, deposit_gate, deposit_rejection,
    lemma_first_entry, lemma_sum_concat, lemma_sum_remove, names, names_at_most_once, outstanding,
    sum_amounts, BalanceView, ClaimantView, ContractView, MAX_CLAIMANTS,
};
use vstd::prelude::*;

verus! {

/// A call on the contract, as a mathematical value.
pub enum Call {
    Deposit { from: Seq<char>, token: Seq<char>, claimants: Seq<ClaimantView> },
    Claim { sender: Seq<char>, token: Seq<char> },
}

/// Whether `call` is accepted in `state`.
pub open spec fn accepted(state: ContractView, call: Call) -> bool {
    match call {
        Call::Deposit { from, token, claimants } => deposit_rejection(
            state,
            from,
            token,
            claimants,
        ) is None,
        Call::Claim { sender, token } => claim_rejection(state, sender, token) is None,
    }
}

/// The state after `call` was made in `state`. A rejected call leaves the
/// state as it is.
pub open spec fn step(state: ContractView, call: Call) -> ContractView {
    if !accepted(state, call) {
        state
    } else {
        match call {
            Call::Deposit { from, token, claimants } => after_deposit(state, token, claimants),
            Call::Claim { sender, token } => after_claim(state, sender, token),
        }
    }
}

/// How much of `token` moves into custody when `call` is made in `state`.
pub open spec fn deposited(state: ContractView, call: Call, token: Seq<char>) -> int {
    match call {
        Call::Deposit { from, token: asset, claimants } => if asset == token && accepted(
            state,
            call,
        ) {
            sum_amounts(claimants)
        } else {
            0
        },
        Call::Claim { .. } => 0,
    }
}

/// How much of `token` moves out of custody when `call` is made in `state`.
pub open spec fn paid_out(state: ContractView, call: Call, token: Seq<char>) -> int {
    match call {
        Call::Deposit { .. } => 0,
        Call::Claim { sender, token: asset } => if asset == token && accepted(state, call) {
            claimed_amount(state, sender, token)
        } else {
            0
        },
    }
}

/// The state after `calls` were made one after the other, starting in `state`.
pub open spec fn run(state: ContractView, calls: Seq<Call>) -> ContractView
    decreases calls.len(),
{
    if calls.len() == 0 {
        state
    } else {
        step(run(state, calls.drop_last()), calls.last())
    }
}

/// How much of `token` moves into custody in the course of `calls`.
pub open spec fn total_deposited(state: ContractView, calls: Seq<Call>, token: Seq<char>) -> int
    decreases calls.len(),
{
    if calls.len() == 0 {
        0
    } else {
        total_deposited(state, calls.drop_last(), token) + deposited(
            run(state, calls.drop_last()),
            calls.last(),
            token,
        )
    }
}

/// How much of `token` moves out of custody in the course of `calls`.
pub open spec fn total_paid_out(state: ContractView, calls: Seq<Call>, token: Seq<char>) -> int
    decreases calls.len(),
{
    if calls.len() == 0 {
        0
    } else {
        total_paid_out(state, calls.drop_last(), token) + paid_out(
            run(state, calls.drop_last()),
            calls.last(),
            token,
        )
    }
}

/// One call changes what is owed of a token by exactly what it moves into
/// custody less what it moves out.
pub proof fn lemma_step_conserves(state: ContractView, call: Call, token: Seq<char>)
    ensures
        outstanding(step(state, call), token) == outstanding(state, token) + deposited(
            state,
            call,
            token,
        ) - paid_out(state, call, token),
{
    if accepted(state, call) {
        match call {
            Call::Deposit { from, token: asset, claimants } => {
                if asset == token && state.balances.contains_key(token) {
                    lemma_sum_concat(claimants, state.balances[token].claimants);
                }
            },
            Call::Claim { sender, token: asset } => {
                if asset == token {
                    let listed = state.balances[token].claimants;
                    lemma_first_entry(listed, sender);
                    lemma_sum_remove(listed, crate::model::first_entry(listed, sender));
                }
            },
        }
    }
}

/// Conservation: whatever calls are made, accepted or rejected, what was
/// owed of a token at the start plus all that was deposited of it equals all
/// that was paid out of it plus what is still owed.
pub proof fn lemma_conservation(state: ContractView, calls: Seq<Call>, token: Seq<char>)
    ensures
        outstanding(state, token) + total_deposited(state, calls, token) == total_paid_out(
            state,
            calls,
            token,
        ) + outstanding(run(state, calls), token),
    decreases calls.len(),
{
    if calls.len() > 0 {
        lemma_conservation(state, calls.drop_last(), token);
        lemma_step_conserves(run(state, calls.drop_last()), calls.last(), token);
    }
}

/// Conservation from the start: on a contract that began with no record,
/// all that was deposited of a token equals all that was paid out of it
/// plus what its remaining claimants are owed.
pub proof fn lemma_conservation_from_start(admin: Seq<char>, calls: Seq<Call>, token: Seq<char>)
    ensures
        ({
            let start = ContractView { admin, balances: Map::<Seq<char>, BalanceView>::empty() };
            total_deposited(start, calls, token) == total_paid_out(start, calls, token)
                + outstanding(run(start, calls), token)
        }),
{
    let start = ContractView { admin, balances: Map::<Seq<char>, BalanceView>::empty() };
    lemma_conservation(start, calls, token);
}

/// What the record of `token` says has been deposited in total: zero where
/// there is no record.
pub open spec fn recorded_total(state: ContractView, token: Seq<char>) -> int {
    if state.balances.contains_key(token) {
        state.balances[token].total_amount
    } else {
        0
    }
}

/// The total of a record counts deposits and nothing else: whatever calls
/// are made, it grows by exactly what is deposited of its token, and no
/// claim lowers it.
pub proof fn lemma_total_counts_deposits(state: ContractView, calls: Seq<Call>, token: Seq<char>)
    ensures
        recorded_total(run(state, calls), token) == recorded_total(state, token) + total_deposited(
            state,
            calls,
            token,
        ),
    decreases calls.len(),
{
    if calls.len() > 0 {
        lemma_total_counts_deposits(state, calls.drop_last(), token);
    }
}

/// On a contract that began with no record, the total of a record is all
/// that was ever deposited of its token, which is all that was paid out of
/// it plus what its remaining claimants are owed.
pub proof fn lemma_total_from_start(admin: Seq<char>, calls: Seq<Call>, token: Seq<char>)
    ensures
        ({
            let start = ContractView { admin, balances: Map::<Seq<char>, BalanceView>::empty() };
            let end = run(start, calls);
            &&& recorded_total(end, token) == total_deposited(start, calls, token)
            &&& recorded_total(end, token) == total_paid_out(start, calls, token) + outstanding(
                end,
                token,
            )
        }),
{
    let start = ContractView { admin, balances: Map::<Seq<char>, BalanceView>::empty() };
    lemma_total_counts_deposits(start, calls, token);
    lemma_conservation(start, calls, token);
}

/// Single claim: once a claimant that the record names no more than once
/// has claimed, the same claim made again is rejected for want of a
/// matching claimant, and moves nothing.
pub proof fn lemma_single_claim(state: ContractView, sender: Seq<char>, token: Seq<char>)
    requires
        claim_rejection(state, sender, token) is None,
        names_at_most_once(state.balances[token].claimants, sender),
    ensures
        claim_rejection(after_claim(state, sender, token), sender, token) == Some(
            EscrowError::NoMatchingClaimant,
        ),
        paid_out(after_claim(state, sender, token), Call::Claim { sender, token }, token) == 0,
        step(after_claim(state, sender, token), Call::Claim { sender, token }) == after_claim(
            state,
            sender,
            token,
        ),
{
    let listed = state.balances[token].claimants;
    lemma_first_entry(listed, sender);
    let first = crate::model::first_entry(listed, sender);
    let rest = listed.remove(first);
    assert forall|i: int| 0 <= i < rest.len() implies (#[trigger] rest[i]).claimant != sender by {
        if i < first {
            assert(rest[i] == listed[i]);
        } else {
            assert(rest[i] == listed[i + 1]);
        }
    }
    assert(!names(rest, sender));
}

/// Authorization gating: a deposit by anyone but the admin is rejected as
/// such, whatever the token and the claimants are, and changes and moves
/// nothing.
pub proof fn lemma_only_admin_deposits(
    state: ContractView,
    from: Seq<char>,
    token: Seq<char>,
    claimants: Seq<ClaimantView>,
)
    requires
        from != state.admin,
    ensures
        deposit_rejection(state, from, token, claimants) == Some(EscrowError::NotAdmin),
        step(state, Call::Deposit { from, token, claimants }) == state,
        forall|asset: Seq<char>|
            deposited(state, Call::Deposit { from, token, claimants }, asset) == 0,
{
}

/// Order of checks: what is rejected before authorization is rejected the
/// same way whatever the token and the amounts are, and what comes to be
/// authorized can afterwards be rejected for overflow only.
pub proof fn lemma_gate_decides_first(
    state: ContractView,
    from: Seq<char>,
    token: Seq<char>,
    claimants: Seq<ClaimantView>,
)
    ensures
        deposit_gate(state, from, claimants.len() as int) is Some ==> deposit_rejection(
            state,
            from,
            token,
            claimants,
        ) == deposit_gate(state, from, claimants.len() as int),
        deposit_gate(state, from, claimants.len() as int) is None ==> deposit_rejection(
            state,
            from,
            token,
            claimants,
        ) is None || deposit_rejection(state, from, token, claimants) == Some(
            EscrowError::Overflow,
        ),
        deposit_gate(state, from, claimants.len() as int) is None ==> from == state.admin,
{
}

/// Bound enforcement: a deposit by the admin that names more claimants than
/// one deposit may is rejected as such, and changes and moves nothing.
pub proof fn lemma_too_many_claimants(
    state: ContractView,
    token: Seq<char>,
    claimants: Seq<ClaimantView>,
)
    requires
        claimants.len() > MAX_CLAIMANTS,
    ensures
        deposit_rejection(state, state.admin, token, claimants) == Some(
            EscrowError::TooManyClaimants,
        ),
        step(state, Call::Deposit { from: state.admin, token, claimants }) == state,
        forall|asset: Seq<char>|
            deposited(state, Call::Deposit { from: state.admin, token, claimants }, asset) == 0,
{
}

/// Merging: two accepted deposits for a token that had no record leave one
/// record, which lists the claimants of the second deposit in front of
/// those of the first and totals the amounts of both.
pub proof fn lemma_deposits_merge(
    state: ContractView,
    token: Seq<char>,
    first: Seq<ClaimantView>,
    second: Seq<ClaimantView>,
)
    requires
        !state.balances.contains_key(token),
    ensures
        after_deposit(after_deposit(state, token, first), token, second).balances[token]
            == (BalanceView {
            token,
            total_amount: sum_amounts(first) + sum_amounts(second),
            claimants: second + first,
        }),
        sum_amounts(second + first) == sum_amounts(first) + sum_amounts(second),
{
    lemma_sum_concat(second, first);
}

/// Independence: a call on one token leaves the record of every other
/// token, and the admin, as they were.
pub proof fn lemma_other_tokens_untouched(state: ContractView, call: Call, other: Seq<char>)
    requires
        other != (match call {
            Call::Deposit { token, .. } => token,
            Call::Claim { token, .. } => token,
        }),
    ensures
        step(state, call).admin == state.admin,
        step(state, call).balances.contains_key(other) == state.balances.contains_key(other),
        step(state, call).balances[other] == state.balances[other],
{
}

} // verus!
