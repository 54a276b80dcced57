use vstd::prelude::*;
use crate::account::AccountId;
use crate::market::offered;
use crate::registry::{approval_set, Approval};
use crate::state::State;
use crate::table::map_of;
use crate::token::Id;

verus! {

/// The state of the engine as plain data, to be stored and read back. Each
/// list is read as a sequence of writes: where a key occurs more than once,
/// its last entry stands.
#[derive(Clone, Debug, PartialEq, Eq)]
pub struct Snapshot {
    /// The distinguished principal.
    pub principal: AccountId,
    /// Accounts and their balances.
    pub balances: Vec<(AccountId, u32)>,
    /// Tokens and their owners.
    pub tokens: Vec<(Id, AccountId)>,
    /// The approvals on record.
    pub approvals: Vec<Approval>,
    /// The sell sequence, oldest offer first, each token with its price.
    pub offers: Vec<(Id, u32)>,
}

impl View for Snapshot {
    type V = State;

    open spec fn view(&self) -> State {
        State {
            principal: self.principal,
            balances: map_of(self.balances@),
            owners: map_of(self.tokens@),
            approvals: approval_set(self.approvals@),
            prices: map_of(self.offers@),
            sell_list: offered(self.offers@),
        }
    }
}

} // verus!
