use vstd::prelude::*;

use crate::account::AccountId;
use crate::cookie::CallContext;
use crate::registry::{CookieContract, RegistryState};

verus! {

/// The deployment helper that instantiates a registry.
pub struct Migrations;

/// Notification that a registry was deployed at `contract_address`.
#[derive(Clone, Copy, Debug)]
pub struct ContractDeployed {
    pub contract_address: AccountId,
}

impl Migrations {
    /// The helper; it holds no state.
    pub fn new() -> Migrations {
        Migrations
    }

    /// Creates an empty registry administered by the caller, together with the
    /// notification that it stands at `contract_address`, the address the host
    /// gave it.
    pub fn deploy_cookie_chain(&mut self, ctx: &CallContext, contract_address: AccountId) -> (r: (
        CookieContract,
        ContractDeployed,
    ))
        ensures
            r.0.inv(),
            r.0@ == RegistryState::initial(ctx.caller),
            r.1.contract_address == contract_address,
    {
        let contract = CookieContract::new(ctx.caller);
        (contract, ContractDeployed { contract_address })
    }
}

} // verus!
