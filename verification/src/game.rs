use vstd::prelude::*;
use crate::account::AccountId;
use crate::error::LedgerError;
use crate::key::Key;
use crate::ledger::{supply, BalanceLedger};
use crate::market::Market;
use crate::registry::TokenRegistry;
use crate::snapshot::Snapshot;
use crate::state::{State, INITIAL_BALANCE};
use crate::token::{tokens_of, Id};

verus! {

/// The engine: the balance ledger, the token registry and the market, under
/// one distinguished principal. Every operation names its caller, runs to
/// its end before the next begins, and either succeeds as a whole or changes
/// nothing.
pub struct Game {
    principal: AccountId,
    ledger: BalanceLedger,
    registry: TokenRegistry,
    market: Market,
}

impl View for Game {
    type V = State;

    closed spec fn view(&self) -> State {
        State {
            principal: self.principal,
            balances: self.ledger@,
            owners: self.registry.owners(),
            approvals: self.registry.approvals(),
            prices: self.market.prices(),
            sell_list: self.market.sell_list(),
        }
    }
}

impl Game {
    pub closed spec fn wf(&self) -> bool {
        &&& self.ledger.wf()
        &&& self.registry.wf()
        &&& self.market.wf()
    }

    /// The state of a well-formed engine meets the state invariant.
    pub proof fn lemma_inv(&self)
        requires
            self.wf(),
        ensures
            self@.inv(),
    {
        self.ledger.lemma_bounded();
        self.registry.lemma_finite();
        self.market.lemma_listed();
    }

    /// Starts the engine for `caller`, who becomes the principal, holds the
    /// initial balance and owns the token `Id::U8(1)`.
    pub fn new(caller: AccountId) -> (r: Game)
        ensures
            r.wf(),
            r@ == State::initialize(caller),
    {
        let mut ledger = BalanceLedger::new();
        assert(supply(ledger@) == 0) by {
            assert(ledger@.dom().len() == 0);
        }
        let credited = ledger.credit(&caller, INITIAL_BALANCE);
        let mut registry = TokenRegistry::new();
        let minted = registry.mint(caller, Id::U8(1));
        assert(credited && minted is Ok);
        let r = Game { principal: caller, ledger, registry, market: Market::new() };
        assert(r@ =~= State::initialize(caller));
        r
    }

    /// The state as plain data. What it gives can always be restored.
    pub fn snapshot(&self) -> (r: Snapshot)
        requires
            self.wf(),
        ensures
            r@ == self@,
            r@.total_supply() <= u32::MAX,
    {
        proof {
            self.lemma_inv();
        }
        let r = Snapshot {
            principal: self.principal,
            balances: self.ledger.entries(),
            tokens: self.registry.tokens(),
            approvals: self.registry.approval_list(),
            offers: self.market.offers(),
        };
        assert(r@ =~= self@);
        r
    }

    /// The engine in the state that `snapshot` describes, unless the sum of
    /// its balances does not fit in a `u32`.
    pub fn restore(snapshot: &Snapshot) -> (r: Option<Game>)
        ensures
            r is Some <==> snapshot@.total_supply() <= u32::MAX,
            r matches Some(game) ==> game.wf() && game@ == snapshot@,
    {
        match BalanceLedger::from_entries(&snapshot.balances) {
            None => None,
            Some(ledger) => {
                let game = Game {
                    principal: snapshot.principal,
                    ledger,
                    registry: TokenRegistry::from_parts(&snapshot.tokens, &snapshot.approvals),
                    market: Market::from_offers(&snapshot.offers),
                };
                assert(game@ =~= snapshot@);
                Some(game)
            },
        }
    }

    /// The distinguished principal.
    pub fn owner(&self) -> (r: AccountId)
        ensures
            r == self@.principal,
    {
        self.principal
    }

    /// `caller` sends `amount` to `to`.
    pub fn transferMoney(&mut self, caller: AccountId, to: AccountId, amount: u32) -> (r: Result<
        (),
        LedgerError,
    >)
        requires
            old(self).wf(),
        ensures
            final(self).wf(),
            final(self)@ == old(self)@.transfer_balance(caller, to, amount).0,
            r == old(self)@.transfer_balance(caller, to, amount).1,
            final(self)@.total_supply() == old(self)@.total_supply(),
    {
        let r = self.ledger.transfer(&caller, &to, amount);
        assert(self@ =~= old(self)@.transfer_balance(caller, to, amount).0);
        r
    }

    /// The balance of `caller`, 0 if it was never written.
    pub fn checKBalance(&self, caller: AccountId) -> (r: u32)
        requires
            self.wf(),
        ensures
            r == self@.balance(caller),
    {
        self.ledger.balance_of(&caller)
    }

    /// `caller` mints the token `id` to itself.
    pub fn mint(&mut self, caller: AccountId, id: Id) -> (r: Result<(), LedgerError>)
        requires
            old(self).wf(),
        ensures
            final(self).wf(),
            final(self)@ == old(self)@.mint(caller, id@).0,
            r == old(self)@.mint(caller, id@).1,
            r is Ok ==> final(self)@.owner_of(id@) == Some(caller),
    {
        let r = self.registry.mint(caller, id);
        assert(self@ =~= old(self)@.mint(caller, id@).0);
        r
    }

    /// `caller` burns the token `id`, which it must own.
    pub fn Holder_burn(&mut self, caller: AccountId, id: Id) -> (r: Result<(), LedgerError>)
        requires
            old(self).wf(),
        ensures
            final(self).wf(),
            final(self)@ == old(self)@.burn_as_holder(caller, id@).0,
            r == old(self)@.burn_as_holder(caller, id@).1,
    {
        let r = self.registry.burn_from(&caller, &id);
        assert(self@ =~= old(self)@.burn_as_holder(caller, id@).0);
        r
    }

    /// `caller`, who must be the principal, burns the token `id`, whoever
    /// owns it; `account` decides nothing.
    pub fn burn(&mut self, caller: AccountId, account: AccountId, id: Id) -> (r: Result<
        (),
        LedgerError,
    >)
        requires
            old(self).wf(),
        ensures
            final(self).wf(),
            final(self)@ == old(self)@.burn_as_owner(caller, account, id@).0,
            r == old(self)@.burn_as_owner(caller, account, id@).1,
    {
        if !caller.same(&self.principal) {
            return Err(LedgerError::Unauthorized);
        }
        let r = self.registry.burn(&id);
        assert(self@ =~= old(self)@.burn_as_owner(caller, account, id@).0);
        r
    }

    /// `caller`, who must own the token `id`, offers it at `price`.
    pub fn AddIntoSellList(&mut self, caller: AccountId, id: Id, price: u32) -> (r: Result<
        (),
        LedgerError,
    >)
        requires
            old(self).wf(),
        ensures
            final(self).wf(),
            final(self)@ == old(self)@.list_for_sale(caller, id@, price).0,
            r == old(self)@.list_for_sale(caller, id@, price).1,
    {
        let approved = self.registry.approve(&caller, &self.principal, &id);
        match approved {
            Ok(()) => {
                self.market.list(id, price);
                assert(self@ =~= old(self)@.list_for_sale(caller, id@, price).0);
                Ok(())
            },
            Err(_) => Err(LedgerError::NotTokenOwner),
        }
    }

    /// A snapshot of the sell sequence.
    pub fn ForSaleNFT(&self) -> (r: Vec<Id>)
        requires
            self.wf(),
        ensures
            tokens_of(r@) == self@.sell_list,
    {
        self.market.for_sale()
    }

    /// `caller` hands the token `id` to `to`. `data` rides along and
    /// decides nothing.
    pub fn transfer(&mut self, caller: AccountId, to: AccountId, id: Id, data: Vec<u8>) -> (r:
        Result<(), LedgerError>)
        requires
            old(self).wf(),
        ensures
            final(self).wf(),
            final(self)@ == old(self)@.transfer_token(caller, to, id@).0,
            r == old(self)@.transfer_token(caller, to, id@).1,
    {
        let r = self.registry.transfer_token(&caller, to, &id);
        assert(self@ =~= old(self)@.transfer_token(caller, to, id@).0);
        r
    }

    /// `caller` pays the price of the token `id` to `to`, who must own it.
    pub fn buy(&mut self, caller: AccountId, id: Id, to: AccountId) -> (r: Result<(), LedgerError>)
        requires
            old(self).wf(),
        ensures
            final(self).wf(),
            final(self)@ == old(self)@.buy(caller, id@, to).0,
            r == old(self)@.buy(caller, id@, to).1,
            final(self)@.total_supply() == old(self)@.total_supply(),
    {
        let price = match self.market.price_of(&id) {
            Some(price) => price,
            None => {
                return Err(LedgerError::NotListed);
            },
        };
        if self.ledger.balance_of(&caller) < price {
            return Err(LedgerError::InsufficientFunds);
        }
        let sold_by_owner = match self.registry.owner_of(&id) {
            Some(seller) => seller.same(&to),
            None => false,
        };
        if !sold_by_owner {
            return Err(LedgerError::SellerMismatch);
        }
        let r = self.ledger.transfer(&caller, &to, price);
        assert(self@ =~= old(self)@.buy(caller, id@, to).0);
        r
    }

    /// The owner of the token `id`, or `None` if it does not exist.
    pub fn owner_of(&self, id: Id) -> (r: Option<AccountId>)
        requires
            self.wf(),
        ensures
            r == self@.owner_of(id@),
    {
        self.registry.owner_of(&id)
    }
}

} // verus!
