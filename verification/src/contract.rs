use crate::error::EscrowError;
use crate::identity::Identity;
use crate::model::{
    after_claim, after_deposit, amounts_fit, claim_rejection, claimed_amount, deposit_gate,
    deposit_rejection, fits_i128, is_first_entry, lemma_first_entry, names, sum_amounts, BalanceView, ClaimantView,
    ContractView, MAX_CLAIMANTS,
};
use crate::ttl::{instance_request, TtlExtension};
use vstd::prelude::*;

verus! {

/// The keys under which the contract stores its data.
#[derive(Clone, Debug, PartialEq, Eq)]
pub enum DataKey {
    /// The identity that may deposit.
    Admin,
    /// The marker that the contract has been set up.
    Init,
    /// The escrow record of one token.
    Balance(Identity),
}

/// The escrow record of one token: what has been deposited for it in total,
/// and who may still withdraw how much.
#[derive(Debug, PartialEq, Eq)]
pub struct ClaimableBalance {
    pub token: Identity,
    pub total_amount: i128,
    pub claimants: Vec<Claimant>,
}

/// One party's entitlement within an escrow record.
#[derive(Debug, PartialEq, Eq)]
pub struct Claimant {
    pub amount: i128,
    pub claimant: Identity,
}

impl View for Claimant {
    type V = ClaimantView;

    open spec fn view(&self) -> ClaimantView {
        ClaimantView { claimant: self.claimant@, amount: self.amount as int }
    }
}

impl Clone for Claimant {
    fn clone(&self) -> (copy: Claimant)
        ensures
            copy == *self,
    {
        Claimant { amount: self.amount, claimant: self.claimant.clone() }
    }
}

/// The entitlements that `claimants` stand for, in the same order.
pub open spec fn claimant_list(claimants: Seq<Claimant>) -> Seq<ClaimantView> {
    claimants.map_values(|c: Claimant| c@)
}

impl View for ClaimableBalance {
    type V = BalanceView;

    open spec fn view(&self) -> BalanceView {
        BalanceView {
            token: self.token@,
            total_amount: self.total_amount as int,
            claimants: claimant_list(self.claimants@),
        }
    }
}

impl Clone for ClaimableBalance {
    fn clone(&self) -> (copy: ClaimableBalance)
        ensures
            copy.token == self.token,
            copy.total_amount == self.total_amount,
            copy.claimants@ == self.claimants@,
            copy@ == self@,
    {
        let claimants = self.claimants.clone();
        assert(claimants@ =~= self.claimants@);
        ClaimableBalance { token: self.token.clone(), total_amount: self.total_amount, claimants }
    }
}

/// Adds up the amounts of `claimants` from first to last, or returns `None`
/// where a running sum leaves the signed 128-bit range.
pub fn total_of(claimants: &Vec<Claimant>) -> (total: Option<i128>)
    ensures
        match total {
            Some(sum) => amounts_fit(claimant_list(claimants@)) && sum == sum_amounts(
                claimant_list(claimants@),
            ),
            None => !amounts_fit(claimant_list(claimants@)),
        },
{
    let ghost list = claimant_list(claimants@);
    let mut sum: i128 = 0;
    let mut i: usize = 0;
    while i < claimants.len()
        invariant
            i <= claimants.len(),
            list == claimant_list(claimants@),
            sum == sum_amounts(list.take(i as int)),
            forall|k: int| 0 <= k <= i ==> fits_i128(#[trigger] sum_amounts(list.take(k))),
        decreases claimants.len() - i,
    {
        proof {
            assert(list.take(i + 1).drop_last() =~= list.take(i as int));
            assert(list.take(i + 1).last() == claimants@[i as int]@);
        }
        match sum.checked_add(claimants[i].amount) {
            Some(next) => {
                sum = next;
            },
            None => {
                assert(!fits_i128(sum_amounts(list.take(i + 1))));
                return None;
            },
        }
        i += 1;
    }
    proof {
        assert(list.take(i as int) =~= list);
    }
    Some(sum)
}

impl ClaimableBalance {
    /// The position of the first entry for `who`, or `None` where the record
    /// does not name `who`.
    pub fn position(&self, who: &Identity) -> (found: Option<usize>)
        ensures
            match found {
                Some(i) => is_first_entry(self@.claimants, who@, i as int),
                None => !names(self@.claimants, who@),
            },
    {
        let mut i: usize = 0;
        while i < self.claimants.len()
            invariant
                i <= self.claimants.len(),
                forall|j: int| 0 <= j < i ==> (#[trigger] self@.claimants[j]).claimant != who@,
            decreases self.claimants.len() - i,
        {
            if self.claimants[i].claimant == *who {
                return Some(i);
            }
            i += 1;
        }
        None
    }
}

/// One side of a transfer.
#[derive(Clone, Debug, PartialEq, Eq)]
pub enum Party {
    /// The contract's own custody.
    Contract,
    /// The holdings of an identity.
    Account(Identity),
}

impl Party {
    /// Whether this side is the holdings of `who`.
    pub open spec fn is_account(self, who: Seq<char>) -> bool {
        self matches Party::Account(id) && id@ == who
    }
}

/// A movement of `amount` of `token` from one party to another, for the
/// token service to carry out.
#[derive(Clone, Debug, PartialEq, Eq)]
pub struct Transfer {
    pub token: Identity,
    pub from: Party,
    pub to: Party,
    pub amount: i128,
}

/// What the host has to carry out for an accepted call. The call takes
/// effect only if all of it succeeds: the new state is kept once
/// `authorizer` is found to have authorized the call and `transfer` has been
/// made, and is dropped otherwise.
///
/// The authorization is verified once for a call. A host that has asked
/// `deposit_authorizer` or `claim_authorizer` and verified the answer before
/// the call has done so: the identity named here is the same.
#[derive(Clone, Debug, PartialEq, Eq)]
pub struct Effects {
    /// Whose authorization the call needs.
    pub authorizer: Identity,
    /// The funds that move.
    pub transfer: Transfer,
    /// The renewal to ask for on the contract's instance, if any.
    pub ttl: Option<TtlExtension>,
}

impl Effects {
    /// Whether these are the effects of a deposit by `from`: `amount` of
    /// `token` moves from `from` into custody on `from`'s authority, and the
    /// instance is renewed exactly if `renews`.
    pub open spec fn is_deposit(
        self,
        from: Seq<char>,
        token: Seq<char>,
        amount: int,
        renews: bool,
    ) -> bool {
        &&& self.authorizer@ == from
        &&& self.transfer.token@ == token
        &&& self.transfer.from.is_account(from)
        &&& self.transfer.to is Contract
        &&& self.transfer.amount == amount
        &&& self.ttl == if renews {
            Some(instance_request())
        } else {
            None
        }
    }

    /// Whether these are the effects of a claim by `sender`: `amount` of
    /// `token` moves out of custody to `sender` on `sender`'s authority, and
    /// the instance is renewed.
    pub open spec fn is_payout(self, sender: Seq<char>, token: Seq<char>, amount: int) -> bool {
        &&& self.authorizer@ == sender
        &&& self.transfer.token@ == token
        &&& self.transfer.from is Contract
        &&& self.transfer.to.is_account(sender)
        &&& self.transfer.amount == amount
        &&& self.ttl == Some(instance_request())
    }
}

/// The escrow contract: the admin, and the record of every token that has
/// received a deposit.
#[derive(Debug)]
pub struct ClaimableBalanceContract {
    admin: Identity,
    balances: Vec<ClaimableBalance>,
}

/// Whether record `i` of `records` is the one of `token`.
spec fn holds(records: Seq<ClaimableBalance>, token: Seq<char>, i: int) -> bool {
    0 <= i < records.len() && records[i].token@ == token
}

/// Whether no two of `records` are for the same token.
spec fn distinct_tokens(records: Seq<ClaimableBalance>) -> bool {
    forall|i: int, j: int|
        0 <= i < j < records.len() ==> (#[trigger] records[i]).token@ != (#[trigger] records[j]).token@
}

/// The records, each under its token.
spec fn record_map(records: Seq<ClaimableBalance>) -> Map<Seq<char>, BalanceView> {
    Map::new(
        |token: Seq<char>| exists|i: int| holds(records, token, i),
        |token: Seq<char>| records[choose|i: int| holds(records, token, i)]@,
    )
}

proof fn lemma_record_at(records: Seq<ClaimableBalance>, i: int)
    requires
        distinct_tokens(records),
        0 <= i < records.len(),
    ensures
        record_map(records).contains_key(records[i].token@),
        record_map(records)[records[i].token@] == records[i]@,
{
    let token = records[i].token@;
    assert(holds(records, token, i));
    let c = choose|c: int| holds(records, token, c);
    assert(holds(records, token, c));
    if c < i {
        assert(records[c].token@ != records[i].token@);
    } else if i < c {
        assert(records[i].token@ != records[c].token@);
    }
}

proof fn lemma_record_put(records: Seq<ClaimableBalance>, next: Seq<ClaimableBalance>, i: int)
    requires
        distinct_tokens(records),
        0 <= i < next.len(),
        next.len() == records.len() || (next.len() == records.len() + 1 && i == records.len()),
        forall|j: int| 0 <= j < records.len() && j != i ==> next[j] == records[j],
        i < records.len() ==> next[i].token@ == records[i].token@,
        i == records.len() ==> forall|j: int| !holds(records, next[i].token@, j),
    ensures
        distinct_tokens(next),
        record_map(next) == record_map(records).insert(next[i].token@, next[i]@),
{
    assert forall|a: int, b: int| 0 <= a < b < next.len() implies (#[trigger] next[a]).token@ != (
    #[trigger] next[b]).token@ by {
        if a < records.len() && b < records.len() {
            assert(records[a].token@ != records[b].token@);
        } else {
            assert(!holds(records, next[i].token@, a));
        }
    }
    let put = record_map(records).insert(next[i].token@, next[i]@);
    assert forall|token: Seq<char>| record_map(next).contains_key(token) <==> put.contains_key(
        token,
    ) by {
        if record_map(next).contains_key(token) {
            let c = choose|c: int| holds(next, token, c);
            assert(holds(next, token, c));
            if c != i {
                assert(holds(records, token, c));
            }
        }
        if put.contains_key(token) && token != next[i].token@ {
            let c = choose|c: int| holds(records, token, c);
            assert(holds(records, token, c));
            assert(holds(next, token, c));
        }
        if token == next[i].token@ {
            assert(holds(next, token, i));
        }
    }
    assert forall|token: Seq<char>| record_map(next).contains_key(token) implies record_map(
        next,
    )[token] == put[token] by {
        let c = choose|c: int| holds(next, token, c);
        assert(holds(next, token, c));
        lemma_record_at(next, c);
        if c != i {
            assert(holds(records, token, c));
            lemma_record_at(records, c);
        }
    }
    assert(record_map(next) =~= put);
}

proof fn lemma_same_records(records: Seq<ClaimableBalance>, copies: Seq<ClaimableBalance>)
    requires
        distinct_tokens(records),
        copies.len() == records.len(),
        forall|i: int| 0 <= i < records.len() ==> (#[trigger] copies[i])@ == records[i]@,
    ensures
        distinct_tokens(copies),
        record_map(copies) == record_map(records),
{
    assert forall|a: int, b: int| 0 <= a < b < copies.len() implies (#[trigger] copies[a]).token@
        != (#[trigger] copies[b]).token@ by {
        assert(copies[a]@ == records[a]@ && copies[b]@ == records[b]@);
        assert(records[a].token@ != records[b].token@);
    }
    assert forall|token: Seq<char>| record_map(copies).contains_key(token) <==> record_map(
        records,
    ).contains_key(token) by {
        if record_map(copies).contains_key(token) {
            let c = choose|c: int| holds(copies, token, c);
            assert(copies[c]@ == records[c]@);
            assert(holds(records, token, c));
        }
        if record_map(records).contains_key(token) {
            let c = choose|c: int| holds(records, token, c);
            assert(copies[c]@ == records[c]@);
            assert(holds(copies, token, c));
        }
    }
    assert forall|token: Seq<char>| record_map(copies).contains_key(token) implies record_map(
        copies,
    )[token] == record_map(records)[token] by {
        let c = choose|c: int| holds(copies, token, c);
        assert(copies[c]@ == records[c]@);
        lemma_record_at(copies, c);
        lemma_record_at(records, c);
    }
    assert(record_map(copies) =~= record_map(records));
}

impl View for ClaimableBalanceContract {
    type V = ContractView;

    closed spec fn view(&self) -> ContractView {
        ContractView { admin: self.admin@, balances: record_map(self.balances@) }
    }
}

impl Clone for ClaimableBalanceContract {
    fn clone(&self) -> (copy: ClaimableBalanceContract)
        ensures
            copy@ == self@,
    {
        proof {
            use_type_invariant(self);
        }
        let balances = self.balances.clone();
        proof {
            assert forall|i: int| 0 <= i < balances.len() implies (#[trigger] balances[i])@
                == self.balances[i]@ by {
                assert(cloned(self.balances[i], balances[i]));
            }
            lemma_same_records(self.balances@, balances@);
        }
        ClaimableBalanceContract { admin: self.admin.clone(), balances }
    }
}

impl ClaimableBalanceContract {
    #[verifier::type_invariant]
    spec fn well_formed(self) -> bool {
        distinct_tokens(self.balances@)
    }

    /// Sets the contract up with `admin` as the only identity that may
    /// deposit, and with no record yet.
    pub fn new(admin: Identity) -> (contract: ClaimableBalanceContract)
        ensures
            contract@.admin == admin@,
            contract@.balances == Map::<Seq<char>, BalanceView>::empty(),
    {
        let contract = ClaimableBalanceContract { admin, balances: Vec::new() };
        assert(contract@.balances =~= Map::<Seq<char>, BalanceView>::empty());
        contract
    }

    /// The identity that may deposit.
    pub fn admin(&self) -> (admin: &Identity)
        ensures
            admin@ == self@.admin,
    {
        &self.admin
    }

    /// The record of `token`, or `None` where no deposit has been made for it.
    pub fn balance(&self, token: &Identity) -> (record: Option<&ClaimableBalance>)
        ensures
            match record {
                Some(r) => {
                    &&& self@.balances.contains_key(token@)
                    &&& r@ == self@.balances[token@]
                    &&& r.token@ == token@
                },
                None => !self@.balances.contains_key(token@),
            },
    {
        proof {
            use_type_invariant(self);
        }
        match self.find(token) {
            Some(i) => {
                proof {
                    lemma_record_at(self.balances@, i as int);
                }
                Some(&self.balances[i])
            },
            None => None,
        }
    }

    /// Whether anything is stored under `key`. The admin and the set-up
    /// marker are there from the start; a record is there from the first
    /// deposit for its token.
    pub fn has(&self, key: &DataKey) -> (present: bool)
        ensures
            present == match *key {
                DataKey::Admin => true,
                DataKey::Init => true,
                DataKey::Balance(token) => self@.balances.contains_key(token@),
            },
    {
        match key {
            DataKey::Admin => true,
            DataKey::Init => true,
            DataKey::Balance(token) => self.balance(token).is_some(),
        }
    }

    /// Stores `record` under its token, in place of the record that was
    /// there, if any.
    pub fn set_balance(&mut self, record: ClaimableBalance)
        ensures
            final(self)@.admin == old(self)@.admin,
            final(self)@.balances == old(self)@.balances.insert(record.token@, record@),
    {
        proof {
            use_type_invariant(&*self);
        }
        let ghost before = self.balances@;
        let found = self.find(&record.token);
        let mut records: Vec<ClaimableBalance> = Vec::new();
        core::mem::swap(&mut self.balances, &mut records);
        match found {
            Some(i) => {
                records.set(i, record);
                proof {
                    lemma_record_put(before, records@, i as int);
                }
            },
            None => {
                records.push(record);
                proof {
                    lemma_record_put(before, records@, before.len() as int);
                }
            },
        }
        core::mem::swap(&mut self.balances, &mut records);
    }

    /// Who has to authorize a deposit by `from` that names `count`
    /// claimants, or why the deposit is rejected before anyone is asked.
    ///
    /// A host that reports failures in the order in which they are checked
    /// calls this first, verifies the authorization of the identity it
    /// returns, and only then calls `deposit`, which adds up the amounts.
    pub fn deposit_authorizer(&self, from: &Identity, count: usize) -> (result: Result<
        Identity,
        EscrowError,
    >)
        ensures
            match result {
                Ok(authorizer) => deposit_gate(self@, from@, count as int) is None
                    && authorizer@ == from@,
                Err(error) => deposit_gate(self@, from@, count as int) == Some(error),
            },
    {
        if !(*from == self.admin) {
            Err(EscrowError::NotAdmin)
        } else if count > MAX_CLAIMANTS {
            Err(EscrowError::TooManyClaimants)
        } else {
            Ok(from.clone())
        }
    }

    /// Who has to authorize a claim by `sender`: `sender`, whatever the
    /// token and whatever its record lists.
    ///
    /// A host that reports failures in the order in which they are checked
    /// verifies this authorization first, and only then calls `claim`, which
    /// looks up the record and the entry.
    pub fn claim_authorizer(&self, sender: &Identity) -> (authorizer: Identity)
        ensures
            authorizer@ == sender@,
    {
        sender.clone()
    }

    /// Escrows funds: `from`, who must be the admin, deposits for each of
    /// `claimants` the amount that the claimant may later withdraw of `token`.
    ///
    /// An accepted deposit puts `claimants` in front of those that the record
    /// of `token` already lists, raises the record's total by the sum of
    /// their amounts, and returns what the host has to carry out: that sum
    /// moves from `from` into custody, and the instance is renewed where the
    /// token had a record before. A rejected deposit changes nothing.
    pub fn deposit(&mut self, from: &Identity, token: &Identity, claimants: Vec<Claimant>) -> (result:
        Result<Effects, EscrowError>)
        ensures
            match result {
                Ok(effects) => {
                    &&& deposit_rejection(old(self)@, from@, token@, claimant_list(claimants@))
                        is None
                    &&& final(self)@ == after_deposit(
                        old(self)@,
                        token@,
                        claimant_list(claimants@),
                    )
                    &&& effects.is_deposit(
                        from@,
                        token@,
                        sum_amounts(claimant_list(claimants@)),
                        old(self)@.balances.contains_key(token@),
                    )
                },
                Err(error) => {
                    &&& deposit_rejection(old(self)@, from@, token@, claimant_list(claimants@))
                        == Some(error)
                    &&& final(self)@ == old(self)@
                },
            },
    {
        proof {
            use_type_invariant(&*self);
        }
        let ghost before = self.balances@;
        let ghost list = claimant_list(claimants@);
        let authorizer = match self.deposit_authorizer(from, claimants.len()) {
            Ok(authorizer) => authorizer,
            Err(error) => {
                return Err(error);
            },
        };
        let amount = match total_of(&claimants) {
            Some(sum) => sum,
            None => {
                return Err(EscrowError::Overflow);
            },
        };
        let mut claimants = claimants;
        let found = self.find(token);
        let total = match found {
            Some(i) => {
                proof {
                    lemma_record_at(before, i as int);
                }
                match amount.checked_add(self.balances[i].total_amount) {
                    Some(total) => total,
                    None => {
                        return Err(EscrowError::Overflow);
                    },
                }
            },
            None => amount,
        };
        let mut records: Vec<ClaimableBalance> = Vec::new();
        core::mem::swap(&mut self.balances, &mut records);
        let ttl = match found {
            Some(i) => {
                let mut record = records.remove(i);
                let ghost listed = record.claimants@;
                claimants.append(&mut record.claimants);
                record.total_amount = total;
                record.claimants = claimants;
                proof {
                    assert(claimant_list(record.claimants@) =~= list + claimant_list(listed));
                }
                records.insert(i, record);
                proof {
                    lemma_record_put(before, records@, i as int);
                }
                Some(TtlExtension::instance())
            },
            None => {
                records.push(
                    ClaimableBalance { token: token.clone(), total_amount: total, claimants },
                );
                proof {
                    lemma_record_put(before, records@, before.len() as int);
                }
                None
            },
        };
        core::mem::swap(&mut self.balances, &mut records);
        Ok(
            Effects {
                authorizer,
                transfer: Transfer {
                    token: token.clone(),
                    from: Party::Account(from.clone()),
                    to: Party::Contract,
                    amount,
                },
                ttl,
            },
        )
    }

    /// Withdraws what `sender` is entitled to of `token`.
    ///
    /// An accepted claim takes the first entry for `sender` off the record
    /// of `token`, leaves the record's total as it is, and returns what the
    /// host has to carry out: the entry's amount moves out of custody to
    /// `sender`, and the instance is renewed. A rejected claim changes
    /// nothing.
    pub fn claim(&mut self, sender: &Identity, token: &Identity) -> (result: Result<
        Effects,
        EscrowError,
    >)
        ensures
            match result {
                Ok(effects) => {
                    &&& claim_rejection(old(self)@, sender@, token@) is None
                    &&& final(self)@ == after_claim(old(self)@, sender@, token@)
                    &&& effects.is_payout(
                        sender@,
                        token@,
                        claimed_amount(old(self)@, sender@, token@),
                    )
                },
                Err(error) => {
                    &&& claim_rejection(old(self)@, sender@, token@) == Some(error)
                    &&& final(self)@ == old(self)@
                },
            },
    {
        proof {
            use_type_invariant(&*self);
        }
        let ghost before = self.balances@;
        let authorizer = self.claim_authorizer(sender);
        let i = match self.find(token) {
            Some(i) => i,
            None => {
                return Err(EscrowError::NoBalance);
            },
        };
        proof {
            lemma_record_at(before, i as int);
        }
        let j = match self.balances[i].position(sender) {
            Some(j) => j,
            None => {
                return Err(EscrowError::NoMatchingClaimant);
            },
        };
        proof {
            lemma_first_entry(before[i as int]@.claimants, sender@);
        }
        let mut records: Vec<ClaimableBalance> = Vec::new();
        core::mem::swap(&mut self.balances, &mut records);
        let mut record = records.remove(i);
        let entry = record.claimants.remove(j);
        proof {
            assert(claimant_list(record.claimants@) =~= before[i as int]@.claimants.remove(
                j as int,
            ));
        }
        let asset = record.token.clone();
        records.insert(i, record);
        proof {
            lemma_record_put(before, records@, i as int);
        }
        core::mem::swap(&mut self.balances, &mut records);
        Ok(
            Effects {
                authorizer,
                transfer: Transfer {
                    token: asset,
                    from: Party::Contract,
                    to: Party::Account(sender.clone()),
                    amount: entry.amount,
                },
                ttl: Some(TtlExtension::instance()),
            },
        )
    }

    /// Where the record of `token` is kept, if there is one.
    fn find(&self, token: &Identity) -> (found: Option<usize>)
        ensures
            match found {
                Some(i) => holds(self.balances@, token@, i as int),
                None => forall|i: int| !holds(self.balances@, token@, i),
            },
    {
        let mut i: usize = 0;
        while i < self.balances.len()
            invariant
                i <= self.balances.len(),
                forall|j: int| 0 <= j < i ==> !holds(self.balances@, token@, j),
            decreases self.balances.len() - i,
        {
            if self.balances[i].token == *token {
                return Some(i);
            }
            i += 1;
        }
        None
    }
}

} // verus!
