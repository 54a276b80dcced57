use vstd::prelude::*;
use crate::account::AccountId;
use crate::error::LedgerError;
use crate::ledger::{balance_in, moved, supply};
use crate::registry::may_move;
use crate::token::TokenId;

verus! {

/// What the initializer holds when the engine starts.
pub const INITIAL_BALANCE: u32 = 1000;

/// The whole state of the engine as mathematics, and what every operation
/// makes of it. Each operation is a function from a state and its arguments
/// to the next state and the result that the caller sees; a refused
/// operation returns the state it was given.
#[verifier::ext_equal]
pub ghost struct State {
    /// The distinguished principal, fixed when the engine starts.
    pub principal: AccountId,
    /// The balance of every account that was ever written.
    pub balances: Map<AccountId, u32>,
    /// The owner of every token that exists.
    pub owners: Map<TokenId, AccountId>,
    /// The approvals on record, each as (owner, operator, token).
    pub approvals: Set<(AccountId, AccountId, TokenId)>,
    /// The price of every token that was ever offered.
    pub prices: Map<TokenId, u32>,
    /// The tokens offered, oldest offer first.
    pub sell_list: Seq<TokenId>,
}

/// One call of an operation that can change the state, by its arguments.
pub ghost enum Call {
    TransferBalance { caller: AccountId, to: AccountId, amount: u32 },
    Mint { caller: AccountId, token: TokenId },
    BurnAsHolder { caller: AccountId, token: TokenId },
    BurnAsOwner { caller: AccountId, account: AccountId, token: TokenId },
    ListForSale { caller: AccountId, token: TokenId, price: u32 },
    Buy { caller: AccountId, token: TokenId, expected_seller: AccountId },
    TransferToken { caller: AccountId, to: AccountId, token: TokenId },
}

impl State {
    /// The state right after `caller` started the engine: `caller` is the
    /// principal, holds the initial balance and owns the first token.
    pub open spec fn initialize(caller: AccountId) -> State {
        State {
            principal: caller,
            balances: Map::<AccountId, u32>::empty().insert(caller, INITIAL_BALANCE),
            owners: Map::<TokenId, AccountId>::empty().insert(TokenId::U8(1), caller),
            approvals: Set::empty(),
            prices: Map::empty(),
            sell_list: Seq::empty(),
        }
    }

    /// The balance of `account`, 0 if it was never written.
    pub open spec fn balance(self, account: AccountId) -> nat {
        balance_in(self.balances, account)
    }

    /// The sum of all balances.
    pub open spec fn total_supply(self) -> nat {
        supply(self.balances)
    }

    /// The owner of `token`, or `None` if it does not exist.
    pub open spec fn owner_of(self, token: TokenId) -> Option<AccountId> {
        self.owners.get(token)
    }

    /// Whether `caller` may move `token`: as its owner, or as an operator
    /// with the owner's approval for it.
    pub open spec fn may_move(self, caller: AccountId, token: TokenId) -> bool {
        may_move(self.owners, self.approvals, caller, token)
    }

    /// What holds of every state that the engine can be in: finitely many
    /// accounts, tokens, approvals and prices; a supply that fits in a
    /// `u32`; and a price for exactly the tokens in the sell sequence.
    pub open spec fn inv(self) -> bool {
        &&& self.balances.dom().finite()
        &&& self.owners.dom().finite()
        &&& self.approvals.finite()
        &&& self.prices.dom().finite()
        &&& self.total_supply() <= u32::MAX
        &&& forall|t: TokenId| #[trigger]
            self.prices.dom().contains(t) <==> self.sell_list.contains(t)
    }

    /// `caller` sends `amount` to `to`.
    pub open spec fn transfer_balance(self, caller: AccountId, to: AccountId, amount: u32) -> (
        State,
        Result<(), LedgerError>,
    ) {
        if self.balance(caller) < amount {
            (self, Err(LedgerError::InsufficientFunds))
        } else {
            (State { balances: moved(self.balances, caller, to, amount), ..self }, Ok(()))
        }
    }

    /// `caller` mints `token` to itself.
    pub open spec fn mint(self, caller: AccountId, token: TokenId) -> (
        State,
        Result<(), LedgerError>,
    ) {
        if self.owners.dom().contains(token) {
            (self, Err(LedgerError::TokenExists))
        } else {
            (State { owners: self.owners.insert(token, caller), ..self }, Ok(()))
        }
    }

    /// `caller` burns `token`, which it must own.
    pub open spec fn burn_as_holder(self, caller: AccountId, token: TokenId) -> (
        State,
        Result<(), LedgerError>,
    ) {
        if !self.owners.dom().contains(token) {
            (self, Err(LedgerError::TokenNotFound))
        } else if self.owners[token] != caller {
            (self, Err(LedgerError::NotTokenOwner))
        } else {
            (State { owners: self.owners.remove(token), ..self }, Ok(()))
        }
    }

    /// `caller`, who must be the principal, burns `token`, whoever owns it.
    /// The account that the caller names as the holder decides nothing.
    pub open spec fn burn_as_owner(self, caller: AccountId, account: AccountId, token: TokenId) -> (
        State,
        Result<(), LedgerError>,
    ) {
        if caller != self.principal {
            (self, Err(LedgerError::Unauthorized))
        } else if !self.owners.dom().contains(token) {
            (self, Err(LedgerError::TokenNotFound))
        } else {
            (State { owners: self.owners.remove(token), ..self }, Ok(()))
        }
    }

    /// `caller`, who must own `token`, offers it at `price`: the principal
    /// gets the caller's approval for the token, the token gets the price,
    /// and the sell sequence gets the token at its end.
    pub open spec fn list_for_sale(self, caller: AccountId, token: TokenId, price: u32) -> (
        State,
        Result<(), LedgerError>,
    ) {
        if self.owner_of(token) != Some(caller) {
            (self, Err(LedgerError::NotTokenOwner))
        } else {
            (
                State {
                    approvals: self.approvals.insert((caller, self.principal, token)),
                    prices: self.prices.insert(token, price),
                    sell_list: self.sell_list.push(token),
                    ..self
                },
                Ok(()),
            )
        }
    }

    /// `caller` pays the price of `token` to `expected_seller`, who must be
    /// its owner. The token itself stays where it is.
    pub open spec fn buy(self, caller: AccountId, token: TokenId, expected_seller: AccountId) -> (
        State,
        Result<(), LedgerError>,
    ) {
        if !self.prices.dom().contains(token) {
            (self, Err(LedgerError::NotListed))
        } else if self.balance(caller) < self.prices[token] {
            (self, Err(LedgerError::InsufficientFunds))
        } else if self.owner_of(token) != Some(expected_seller) {
            (self, Err(LedgerError::SellerMismatch))
        } else {
            (
                State {
                    balances: moved(self.balances, caller, expected_seller, self.prices[token]),
                    ..self
                },
                Ok(()),
            )
        }
    }

    /// `caller` hands `token` to `to`. The approval that `caller` held from
    /// the owner for this token, if any, is used up.
    pub open spec fn transfer_token(self, caller: AccountId, to: AccountId, token: TokenId) -> (
        State,
        Result<(), LedgerError>,
    ) {
        if !self.owners.dom().contains(token) {
            (self, Err(LedgerError::TokenNotFound))
        } else if !self.may_move(caller, token) {
            (self, Err(LedgerError::NotTokenOwner))
        } else {
            (
                State {
                    owners: self.owners.insert(token, to),
                    approvals: self.approvals.remove((self.owners[token], caller, token)),
                    ..self
                },
                Ok(()),
            )
        }
    }

    /// What `call` makes of the state, and what its caller sees.
    pub open spec fn step(self, call: Call) -> (State, Result<(), LedgerError>) {
        match call {
            Call::TransferBalance { caller, to, amount } => self.transfer_balance(
                caller,
                to,
                amount,
            ),
            Call::Mint { caller, token } => self.mint(caller, token),
            Call::BurnAsHolder { caller, token } => self.burn_as_holder(caller, token),
            Call::BurnAsOwner { caller, account, token } => self.burn_as_owner(
                caller,
                account,
                token,
            ),
            Call::ListForSale { caller, token, price } => self.list_for_sale(caller, token, price),
            Call::Buy { caller, token, expected_seller } => self.buy(
                caller,
                token,
                expected_seller,
            ),
            Call::TransferToken { caller, to, token } => self.transfer_token(caller, to, token),
        }
    }

    /// The state after the calls in `calls` were made one after the other.
    pub open spec fn run(self, calls: Seq<Call>) -> State
        decreases calls.len(),
    {
        if calls.len() == 0 {
            self
        } else {
            self.run(calls.drop_last()).step(calls.last()).0
        }
    }
}

} // verus!
