use claimable_balance::contract::{ClaimableBalanceContract, Claimant, Effects, Party};
use claimable_balance::error::EscrowError;
use claimable_balance::identity::Identity;
use soroban_sdk::testutils::{Address as _, ContractFunctionSet, EnvTestConfig, Ledger};
use soroban_sdk::{
    token::Client as TokenClient, token::StellarAssetClient as TokenAdminClient, Address, Env,
    Val,
};

fn create_token_contract<'a>(e: &Env, admin: &Address) -> (TokenClient<'a>, TokenAdminClient<'a>) {
    let sac = e.register_stellar_asset_contract_v2(admin.clone());
    (
        TokenClient::new(e, &sac.address()),
        TokenAdminClient::new(e, &sac.address()),
    )
}

/// A ledger that keeps its records in memory only.
fn ledger() -> Env {
    Env::new_with_config(EnvTestConfig { capture_snapshot_at_drop: false })
}

fn identity(address: &Address) -> Identity {
    Identity::new(address.to_string().to_string())
}

/// The contract as the ledger knows it: an address that holds funds. Its
/// entry points are driven from here, so the ledger is given none to call.
struct Custody;

impl ContractFunctionSet for Custody {
    fn call(&self, _func: &str, _env: Env, _args: &[Val]) -> Option<Val> {
        None
    }
}

/// The escrow on a ledger: the contract's state, the address under which it
/// holds funds, and the ledger that carries out what the contract asks for.
struct Escrow<'a> {
    env: &'a Env,
    address: Address,
    state: ClaimableBalanceContract,
}

impl<'a> Escrow<'a> {
    fn new(env: &'a Env, admin: &Address) -> Escrow<'a> {
        Escrow {
            env,
            address: env.register(Custody, ()),
            state: ClaimableBalanceContract::new(identity(admin)),
        }
    }

    /// Runs a call as the contract at `address` would: the authorization
    /// that `authorizer` names is verified, then `call` is made, and where it
    /// is accepted its transfer is carried out. Fails as the contract does
    /// on a rejected call.
    fn run(
        &mut self,
        authorizer: Result<Identity, EscrowError>,
        call: impl FnOnce(&mut ClaimableBalanceContract) -> Result<Effects, EscrowError>,
    ) {
        let authorizer = match authorizer {
            Ok(identity) => Address::from_str(self.env, identity.name()),
            Err(error) => panic!("{}", error.message()),
        };
        let (env, custody) = (self.env, self.address.clone());
        let state = &mut self.state;
        let outcome = env.as_contract(&custody, || {
            authorizer.require_auth();
            let outcome = call(state);
            if let Ok(effects) = &outcome {
                assert_eq!(Address::from_str(env, effects.authorizer.name()), authorizer);
                let token = Address::from_str(env, effects.transfer.token.name());
                let side = |party: &Party| match party {
                    Party::Contract => custody.clone(),
                    Party::Account(id) => Address::from_str(env, id.name()),
                };
                TokenClient::new(env, &token).transfer(
                    &side(&effects.transfer.from),
                    &side(&effects.transfer.to),
                    &effects.transfer.amount,
                );
            }
            outcome
        });
        if let Err(error) = outcome {
            panic!("{}", error.message());
        }
    }

    fn deposit(&mut self, from: &Address, token: &Address, claimants: &Vec<Claimant>) {
        let (from, token, claimants) = (identity(from), identity(token), claimants.clone());
        let authorizer = self.state.deposit_authorizer(&from, claimants.len());
        self.run(authorizer, |state| state.deposit(&from, &token, claimants));
    }

    fn claim(&mut self, sender: &Address, token: &Address) {
        let (sender, token) = (identity(sender), identity(token));
        let authorizer = Ok(self.state.claim_authorizer(&sender));
        self.run(authorizer, |state| state.claim(&sender, &token));
    }
}

fn claimant(address: &Address, amount: i128) -> Claimant {
    Claimant { claimant: identity(address), amount }
}

#[test]
fn test_deposit_and_claim_multiple() {
    let env = ledger();
    env.mock_all_auths();
    env.ledger().with_mut(|li| li.timestamp = 12345);

    let admin = Address::generate(&env);
    let holders: Vec<Address> = (0..8).map(|_| Address::generate(&env)).collect();
    let claimants: Vec<Claimant> = vec![
        claimant(&holders[0], 10),
        claimant(&holders[1], 20),
        claimant(&holders[2], 30),
        claimant(&holders[3], 40),
        claimant(&holders[4], 50),
        claimant(&holders[5], 60),
        claimant(&holders[6], 70),
        claimant(&holders[7], 80),
    ];

    let (token, token_admin_client) = create_token_contract(&env, &admin);
    token_admin_client.mint(&admin, &360);

    let mut contract = Escrow::new(&env, &admin);

    contract.deposit(&admin, &token.address, &claimants.clone());

    for holder in &holders {
        assert_eq!(token.balance(holder), 0);
    }

    for holder in &holders {
        contract.claim(holder, &token.address);
    }

    for (holder, c) in holders.iter().zip(&claimants) {
        assert_eq!(token.balance(holder), c.amount);
    }

    assert_eq!(token.balance(&contract.address), 0);
}

#[test]
fn test_deposit_multiple_times() {
    let env = ledger();
    env.mock_all_auths();
    env.ledger().with_mut(|li| li.timestamp = 12345);

    let admin = Address::generate(&env);
    let holders: Vec<Address> = (0..8).map(|_| Address::generate(&env)).collect();
    let claimants = vec![
        claimant(&holders[0], 10),
        claimant(&holders[1], 20),
        claimant(&holders[2], 30),
        claimant(&holders[3], 40),
        claimant(&holders[4], 50),
        claimant(&holders[5], 60),
        claimant(&holders[6], 70),
        claimant(&holders[7], 80),
    ];

    let (token, token_admin_client) = create_token_contract(&env, &admin);
    token_admin_client.mint(&admin, &360);

    let mut contract = Escrow::new(&env, &admin);

    let part1 = vec![claimants[0].clone(), claimants[1].clone(), claimants[2].clone()];

    let part2 = vec![claimants[3].clone(), claimants[4].clone(), claimants[5].clone()];

    let part3 = vec![claimants[6].clone(), claimants[7].clone()];

    contract.deposit(&admin, &token.address, &part1);
    contract.deposit(&admin, &token.address, &part2);
    contract.deposit(&admin, &token.address, &part3);

    for holder in &holders {
        assert_eq!(token.balance(holder), 0);
    }

    for holder in &holders {
        contract.claim(holder, &token.address);
    }

    for (holder, c) in holders.iter().zip(&claimants) {
        assert_eq!(token.balance(holder), c.amount);
    }

    assert_eq!(token.balance(&contract.address), 0);
}

#[test]
#[should_panic(expected = "no matching claimant found")]
fn test_duplicate_claim_should_fail() {
    let env = ledger();
    env.mock_all_auths();

    let admin = Address::generate(&env);
    let claimer = Address::generate(&env);

    let claimant_list = vec![claimant(&claimer, 50), claimant(&Address::generate(&env), 50)];

    let (token, token_admin_client) = create_token_contract(&env, &admin);
    token_admin_client.mint(&admin, &100);

    let mut contract = Escrow::new(&env, &admin);

    contract.deposit(&admin, &token.address, &claimant_list);

    // claiming twice fails
    contract.claim(&claimer, &token.address);
    contract.claim(&claimer, &token.address); // should panic
}

#[test]
#[should_panic(expected = "only admin may deposit")]
fn test_non_admin_cannot_deposit() {
    let env = ledger();
    env.mock_all_auths();

    let admin = Address::generate(&env);
    let not_admin = Address::generate(&env);
    let holder = Address::generate(&env);

    let (token, token_admin_client) = create_token_contract(&env, &admin);
    token_admin_client.mint(&not_admin, &100);

    let mut contract = Escrow::new(&env, &admin);

    contract.deposit(&not_admin, &token.address, &vec![claimant(&holder, 100)]);
}

#[test]
#[should_panic(expected = "too many claimants")]
fn test_too_many_claimants_should_fail() {
    let env = ledger();
    env.mock_all_auths();

    let admin = Address::generate(&env);
    let (token, token_admin_client) = create_token_contract(&env, &admin);
    token_admin_client.mint(&admin, &1000);

    let mut contract = Escrow::new(&env, &admin);

    let claimants: Vec<Claimant> =
        (0..22).map(|_| claimant(&Address::generate(&env), 1)).collect();
    assert_eq!(claimants.len(), 22);

    contract.deposit(&admin, &token.address, &claimants);
}

#[test]
fn funds_stay_where_they_are_on_a_rejected_call() {
    let env = ledger();
    env.mock_all_auths();

    let admin = Address::generate(&env);
    let not_admin = Address::generate(&env);
    let holder = Address::generate(&env);
    let (token, token_admin_client) = create_token_contract(&env, &admin);
    token_admin_client.mint(&admin, &1000);
    token_admin_client.mint(&not_admin, &100);

    let mut contract = Escrow::new(&env, &admin);
    let id = |a: &Address| identity(a);

    let rejected =
        contract.state.deposit(&id(&not_admin), &id(&token.address), vec![claimant(&holder, 100)]);
    assert_eq!(rejected, Err(EscrowError::NotAdmin));
    let crowd: Vec<Claimant> = (0..11).map(|_| claimant(&holder, 1)).collect();
    let rejected = contract.state.deposit(&id(&admin), &id(&token.address), crowd);
    assert_eq!(rejected, Err(EscrowError::TooManyClaimants));
    assert_eq!(contract.state.balance(&id(&token.address)), None);

    contract.deposit(&admin, &token.address, &vec![claimant(&holder, 40)]);
    assert_eq!(token.balance(&admin), 960);
    assert_eq!(token.balance(&contract.address), 40);

    contract.claim(&holder, &token.address);
    assert_eq!(token.balance(&holder), 40);
    let again = contract.state.claim(&id(&holder), &id(&token.address));
    assert_eq!(again, Err(EscrowError::NoMatchingClaimant));
    assert_eq!(token.balance(&holder), 40);
    assert_eq!(token.balance(&not_admin), 100);
    assert_eq!(token.balance(&contract.address), 0);
}
