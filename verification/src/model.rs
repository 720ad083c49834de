use crate::error::EscrowError;
use vstd::prelude::*;

verus! {

/// The most claimants that one deposit may name.
pub const MAX_CLAIMANTS: usize = 10;

/// One entitlement, as a mathematical value: who may withdraw, and how much.
pub struct ClaimantView {
    pub claimant: Seq<char>,
    pub amount: int,
}

/// The escrow record of one token, as a mathematical value.
pub struct BalanceView {
    pub token: Seq<char>,
    pub total_amount: int,
    pub claimants: Seq<ClaimantView>,
}

/// Everything the contract stores: the admin, and one record for each token
/// that has ever received a deposit.
pub struct ContractView {
    pub admin: Seq<char>,
    pub balances: Map<Seq<char>, BalanceView>,
}

/// Whether `x` can be held in a signed 128-bit integer.
pub open spec fn fits_i128(x: int) -> bool {
    i128::MIN <= x <= i128::MAX
}

/// The sum of the amounts of `claimants`.
pub open spec fn sum_amounts(claimants: Seq<ClaimantView>) -> int
    decreases claimants.len(),
{
    if claimants.len() == 0 {
        0
    } else {
        sum_amounts(claimants.drop_last()) + claimants.last().amount
    }
}

/// Whether the amounts of `claimants` can be added up from first to last
/// without any running sum leaving the signed 128-bit range.
pub open spec fn amounts_fit(claimants: Seq<ClaimantView>) -> bool {
    forall|k: int| 0 <= k <= claimants.len() ==> fits_i128(#[trigger] sum_amounts(claimants.take(k)))
}

/// Whether some entry of `claimants` is for `who`.
pub open spec fn names(claimants: Seq<ClaimantView>, who: Seq<char>) -> bool {
    exists|i: int| 0 <= i < claimants.len() && (#[trigger] claimants[i]).claimant == who
}

/// Whether entry `i` of `claimants` is the first one for `who`.
pub open spec fn is_first_entry(claimants: Seq<ClaimantView>, who: Seq<char>, i: int) -> bool {
    &&& 0 <= i < claimants.len()
    &&& claimants[i].claimant == who
    &&& forall|j: int| 0 <= j < i ==> (#[trigger] claimants[j]).claimant != who
}

/// The position of the first entry for `who`, where `claimants` names `who`.
pub open spec fn first_entry(claimants: Seq<ClaimantView>, who: Seq<char>) -> int {
    choose|i: int| is_first_entry(claimants, who, i)
}

/// Whether at most one entry of `claimants` is for `who`.
pub open spec fn names_at_most_once(claimants: Seq<ClaimantView>, who: Seq<char>) -> bool {
    forall|i: int, j: int|
        0 <= i < claimants.len() && 0 <= j < claimants.len() && (#[trigger] claimants[i]).claimant
            == who && (#[trigger] claimants[j]).claimant == who ==> i == j
}

/// The sum of what is still owed under the record of `token`: zero where
/// there is no record.
pub open spec fn outstanding(state: ContractView, token: Seq<char>) -> int {
    if state.balances.contains_key(token) {
        sum_amounts(state.balances[token].claimants)
    } else {
        0
    }
}

/// The record of `token`, if there is one.
pub open spec fn record_of(state: ContractView, token: Seq<char>) -> Option<BalanceView> {
    if state.balances.contains_key(token) {
        Some(state.balances[token])
    } else {
        None
    }
}

/// Why a deposit by `from` that names `count` claimants is rejected before
/// anyone's authorization is asked for, or `None` where `from` has to
/// authorize it. The depositor is looked at first, then the count.
pub open spec fn deposit_gate(state: ContractView, from: Seq<char>, count: int) -> Option<
    EscrowError,
> {
    if from != state.admin {
        Some(EscrowError::NotAdmin)
    } else if count > MAX_CLAIMANTS {
        Some(EscrowError::TooManyClaimants)
    } else {
        None
    }
}

/// Why a deposit by `from` of `claimants` for `token` is rejected in `state`,
/// or `None` where it is accepted. What is rejected before authorization
/// comes first; the amounts are added up only after it.
pub open spec fn deposit_rejection(
    state: ContractView,
    from: Seq<char>,
    token: Seq<char>,
    claimants: Seq<ClaimantView>,
) -> Option<EscrowError> {
    if deposit_gate(state, from, claimants.len() as int) is Some {
        deposit_gate(state, from, claimants.len() as int)
    } else if !amounts_fit(claimants) {
        Some(EscrowError::Overflow)
    } else if state.balances.contains_key(token) && !fits_i128(
        sum_amounts(claimants) + state.balances[token].total_amount,
    ) {
        Some(EscrowError::Overflow)
    } else {
        None
    }
}

/// The record of `token` once `claimants` have been deposited on top of
/// `existing`: the new claimants come first, those already there keep their
/// order behind them, and the total grows by what was deposited.
pub open spec fn merged(
    existing: Option<BalanceView>,
    token: Seq<char>,
    claimants: Seq<ClaimantView>,
) -> BalanceView {
    match existing {
        Some(old) => BalanceView {
            token,
            total_amount: sum_amounts(claimants) + old.total_amount,
            claimants: claimants + old.claimants,
        },
        None => BalanceView { token, total_amount: sum_amounts(claimants), claimants },
    }
}

/// The state that an accepted deposit of `claimants` for `token` leaves.
pub open spec fn after_deposit(
    state: ContractView,
    token: Seq<char>,
    claimants: Seq<ClaimantView>,
) -> ContractView {
    ContractView {
        admin: state.admin,
        balances: state.balances.insert(token, merged(record_of(state, token), token, claimants)),
    }
}

/// Why a claim by `sender` on `token` is rejected in `state`, or `None`
/// where it is accepted.
pub open spec fn claim_rejection(state: ContractView, sender: Seq<char>, token: Seq<char>) -> Option<
    EscrowError,
> {
    if !state.balances.contains_key(token) {
        Some(EscrowError::NoBalance)
    } else if !names(state.balances[token].claimants, sender) {
        Some(EscrowError::NoMatchingClaimant)
    } else {
        None
    }
}

/// What an accepted claim by `sender` on `token` pays out: the amount of the
/// first entry for `sender`.
pub open spec fn claimed_amount(state: ContractView, sender: Seq<char>, token: Seq<char>) -> int {
    let record = state.balances[token];
    record.claimants[first_entry(record.claimants, sender)].amount
}

/// The state that an accepted claim by `sender` on `token` leaves: the first
/// entry for `sender` is gone, the others keep their order, and the total is
/// what it was.
pub open spec fn after_claim(state: ContractView, sender: Seq<char>, token: Seq<char>) -> ContractView {
    let record = state.balances[token];
    ContractView {
        admin: state.admin,
        balances: state.balances.insert(
            token,
            BalanceView {
                token: record.token,
                total_amount: record.total_amount,
                claimants: record.claimants.remove(first_entry(record.claimants, sender)),
            },
        ),
    }
}

/// The amounts of a concatenation add up to the sum of the two parts.
pub proof fn lemma_sum_concat(a: Seq<ClaimantView>, b: Seq<ClaimantView>)
    ensures
        sum_amounts(a + b) == sum_amounts(a) + sum_amounts(b),
    decreases b.len(),
{
    if b.len() == 0 {
        assert(a + b =~= a);
    } else {
        assert((a + b).drop_last() =~= a + b.drop_last());
        lemma_sum_concat(a, b.drop_last());
    }
}

/// Taking one entry out lowers the sum by that entry's amount.
pub proof fn lemma_sum_remove(claimants: Seq<ClaimantView>, i: int)
    requires
        0 <= i < claimants.len(),
    ensures
        sum_amounts(claimants.remove(i)) == sum_amounts(claimants) - claimants[i].amount,
{
    let before = claimants.take(i);
    let after = claimants.skip(i + 1);
    let one = seq![claimants[i]];
    assert(claimants =~= before + one + after);
    assert(claimants.remove(i) =~= before + after);
    lemma_sum_concat(before, one);
    lemma_sum_concat(before + one, after);
    lemma_sum_concat(before, after);
    assert(sum_amounts(one) == claimants[i].amount) by {
        reveal_with_fuel(sum_amounts, 2);
    }
}

/// At most one position is that of the first entry for `who`, and there is
/// one exactly where `claimants` names `who`.
pub proof fn lemma_first_entry(claimants: Seq<ClaimantView>, who: Seq<char>)
    ensures
        names(claimants, who) <==> is_first_entry(claimants, who, first_entry(claimants, who)),
        forall|i: int| is_first_entry(claimants, who, i) ==> i == first_entry(claimants, who),
{
    if names(claimants, who) {
        let k = choose|i: int| 0 <= i < claimants.len() && (#[trigger] claimants[i]).claimant == who;
        lemma_least_entry(claimants, who, k);
    }
    assert forall|i: int| is_first_entry(claimants, who, i) implies i == first_entry(
        claimants,
        who,
    ) by {
        let f = first_entry(claimants, who);
        assert(is_first_entry(claimants, who, f));
        if i < f {
            assert(claimants[i].claimant != who);
        } else if f < i {
            assert(claimants[f].claimant != who);
        }
    }
}

/// Below any entry for `who` there is a first one.
proof fn lemma_least_entry(claimants: Seq<ClaimantView>, who: Seq<char>, k: int)
    requires
        0 <= k < claimants.len(),
        claimants[k].claimant == who,
    ensures
        exists|i: int| is_first_entry(claimants, who, i),
    decreases k,
{
    if exists|j: int| 0 <= j < k && (#[trigger] claimants[j]).claimant == who {
        let j = choose|j: int| 0 <= j < k && (#[trigger] claimants[j]).claimant == who;
        lemma_least_entry(claimants, who, j);
    } else {
        assert(is_first_entry(claimants, who, k));
    }
}

} // verus!
