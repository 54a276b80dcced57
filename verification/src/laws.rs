use vstd::prelude::*;
use crate::account::AccountId;
use crate::error::LedgerError;
use crate::ledger::{lemma_supply_insert, lemma_supply_moved, supply};
use crate::state::{Call, State, INITIAL_BALANCE};
use crate::token::TokenId;

verus! {

/// The engine starts in a state that meets the invariant, with a supply of
/// exactly the initial balance.
pub proof fn initial_state(caller: AccountId)
    ensures
        State::initialize(caller).inv(),
        State::initialize(caller).total_supply() == INITIAL_BALANCE,
        State::initialize(caller).balance(caller) == INITIAL_BALANCE,
        State::initialize(caller).owner_of(TokenId::U8(1)) == Some(caller),
{
    let nobody = Map::<AccountId, u32>::empty();
    assert(nobody.dom().len() == 0);
    assert(supply(nobody) == 0);
    lemma_supply_insert(nobody, caller, INITIAL_BALANCE);
}

/// Every call, accepted or refused, takes a state that meets the invariant
/// to one that meets it, and leaves the supply and the principal as they
/// were.
pub proof fn step_preserves(s: State, call: Call)
    requires
        s.inv(),
    ensures
        s.step(call).0.inv(),
        s.step(call).0.total_supply() == s.total_supply(),
        s.step(call).0.principal == s.principal,
{
    match call {
        Call::TransferBalance { caller, to, amount } => {
            if s.balance(caller) >= amount {
                lemma_supply_moved(s.balances, caller, to, amount);
            }
        },
        Call::Buy { caller, token, expected_seller } => {
            if s.buy(caller, token, expected_seller).1 is Ok {
                lemma_supply_moved(s.balances, caller, expected_seller, s.prices[token]);
            }
        },
        Call::ListForSale { caller, token, price } => {
            if s.list_for_sale(caller, token, price).1 is Ok {
                let next = s.list_for_sale(caller, token, price).0;
                assert forall|t: TokenId| #[trigger]
                    next.prices.dom().contains(t) <==> next.sell_list.contains(t) by {
                    if s.sell_list.contains(t) {
                        let i = choose|i: int| 0 <= i < s.sell_list.len() && s.sell_list[i] == t;
                        assert(next.sell_list[i] == t);
                    }
                    if t == token {
                        assert(next.sell_list[s.sell_list.len() as int] == t);
                    }
                    if next.sell_list.contains(t) {
                        let i = choose|i: int|
                            0 <= i < next.sell_list.len() && next.sell_list[i] == t;
                        if i < s.sell_list.len() {
                            assert(s.sell_list[i] == t);
                        }
                    }
                }
            }
        },
        _ => {},
    }
}

/// A refused call changes nothing.
pub proof fn refused_call_changes_nothing(s: State, call: Call)
    requires
        s.step(call).1 is Err,
    ensures
        s.step(call).0 == s,
{
}

/// Conservation: whatever calls are made, in whatever order, the sum of all
/// balances stays what it was, and the invariant goes on holding.
pub proof fn conservation(s: State, calls: Seq<Call>)
    requires
        s.inv(),
    ensures
        s.run(calls).inv(),
        s.run(calls).total_supply() == s.total_supply(),
        s.run(calls).principal == s.principal,
    decreases calls.len(),
{
    if calls.len() > 0 {
        conservation(s, calls.drop_last());
        step_preserves(s.run(calls.drop_last()), calls.last());
    }
}

/// From the start on, whatever calls are made, the sum of all balances is
/// the initial balance, and the one who started the engine is the principal.
pub proof fn supply_is_the_initial_balance(caller: AccountId, calls: Seq<Call>)
    ensures
        State::initialize(caller).run(calls).inv(),
        State::initialize(caller).run(calls).total_supply() == INITIAL_BALANCE,
        State::initialize(caller).run(calls).principal == caller,
{
    initial_state(caller);
    conservation(State::initialize(caller), calls);
}

/// Conservation of a single balance transfer: if it succeeds, what the two
/// accounts hold together is what they held before.
pub proof fn transfer_moves_balance(s: State, caller: AccountId, to: AccountId, amount: u32)
    requires
        s.inv(),
        s.balance(caller) >= amount,
    ensures
        s.transfer_balance(caller, to, amount).1 is Ok,
        s.transfer_balance(caller, to, amount).0.total_supply() == s.total_supply(),
        caller != to ==> s.transfer_balance(caller, to, amount).0.balance(caller) == s.balance(
            caller,
        ) - amount,
        caller != to ==> s.transfer_balance(caller, to, amount).0.balance(to) == s.balance(to)
            + amount,
        caller == to ==> s.transfer_balance(caller, to, amount).0.balance(caller) == s.balance(
            caller,
        ),
        forall|other: AccountId|
            other != caller && other != to ==> #[trigger] s.transfer_balance(
                caller,
                to,
                amount,
            ).0.balance(other) == s.balance(other),
{
    lemma_supply_moved(s.balances, caller, to, amount);
}

/// Uniqueness: a token has at most one owner.
pub proof fn owner_is_unique(s: State, token: TokenId, a: AccountId, b: AccountId)
    requires
        s.owner_of(token) == Some(a),
        s.owner_of(token) == Some(b),
    ensures
        a == b,
{
}

/// After a successful mint the token is owned by the caller who minted it,
/// whatever else the state holds, and every other token is where it was.
pub proof fn mint_assigns_caller(s: State, caller: AccountId, token: TokenId)
    requires
        s.mint(caller, token).1 is Ok,
    ensures
        s.owner_of(token) is None,
        s.mint(caller, token).0.owner_of(token) == Some(caller),
        forall|other: TokenId|
            other != token ==> #[trigger] s.mint(caller, token).0.owner_of(other) == s.owner_of(
                other,
            ),
{
}

/// No double mint: once a token is minted, minting it again is refused with
/// `TokenExists`, by whomever, and its owner stays the first minter.
pub proof fn no_double_mint(s: State, a: AccountId, b: AccountId, token: TokenId)
    requires
        s.mint(a, token).1 is Ok,
    ensures
        s.mint(a, token).0.mint(b, token).1 == Err::<(), LedgerError>(LedgerError::TokenExists),
        s.mint(a, token).0.mint(b, token).0.owner_of(token) == Some(a),
{
}

/// Atomic insufficient transfer: a transfer of more than the sender holds
/// is refused with `InsufficientFunds` and changes no balance.
pub proof fn insufficient_transfer_is_atomic(s: State, a: AccountId, b: AccountId, amount: u32)
    requires
        s.balance(a) < amount,
    ensures
        s.transfer_balance(a, b, amount).1 == Err::<(), LedgerError>(
            LedgerError::InsufficientFunds,
        ),
        s.transfer_balance(a, b, amount).0 == s,
        s.transfer_balance(a, b, amount).0.balance(a) == s.balance(a),
        s.transfer_balance(a, b, amount).0.balance(b) == s.balance(b),
{
}

/// Privileged burn: anyone but the principal is refused with
/// `Unauthorized`; the principal burns any token that exists, whoever owns
/// it and whichever account the call names.
pub proof fn privileged_burn(s: State, caller: AccountId, account: AccountId, token: TokenId)
    ensures
        caller != s.principal ==> s.burn_as_owner(caller, account, token).1 == Err::<
            (),
            LedgerError,
        >(LedgerError::Unauthorized) && s.burn_as_owner(caller, account, token).0 == s,
        caller == s.principal && s.owner_of(token) is Some ==> s.burn_as_owner(
            caller,
            account,
            token,
        ).1 is Ok && s.burn_as_owner(caller, account, token).0.owner_of(token) is None,
        caller == s.principal && s.owner_of(token) is None ==> s.burn_as_owner(
            caller,
            account,
            token,
        ).1 == Err::<(), LedgerError>(LedgerError::TokenNotFound),
{
}

/// Holder burn restriction: a caller who is not the owner of an existing
/// token cannot burn it as its holder; the owner can.
pub proof fn holder_burn_restricted(s: State, caller: AccountId, token: TokenId)
    requires
        s.owner_of(token) is Some,
    ensures
        s.owner_of(token) != Some(caller) ==> s.burn_as_holder(caller, token).1 == Err::<
            (),
            LedgerError,
        >(LedgerError::NotTokenOwner) && s.burn_as_holder(caller, token).0 == s,
        s.owner_of(token) == Some(caller) ==> s.burn_as_holder(caller, token).1 is Ok
            && s.burn_as_holder(caller, token).0.owner_of(token) is None,
{
}

/// A purchase moves the price from the buyer to the seller and leaves the
/// token with the seller, so the same purchase can be made again for as
/// long as the buyer can pay.
pub proof fn purchase_moves_balance_only(
    s: State,
    buyer: AccountId,
    token: TokenId,
    seller: AccountId,
)
    requires
        s.inv(),
        s.buy(buyer, token, seller).1 is Ok,
    ensures
        s.buy(buyer, token, seller).0.owners == s.owners,
        s.buy(buyer, token, seller).0.prices == s.prices,
        s.buy(buyer, token, seller).0.sell_list == s.sell_list,
        s.buy(buyer, token, seller).0.total_supply() == s.total_supply(),
        buyer != seller ==> s.buy(buyer, token, seller).0.balance(buyer) == s.balance(buyer)
            - s.prices[token],
        buyer != seller ==> s.buy(buyer, token, seller).0.balance(seller) == s.balance(seller)
            + s.prices[token],
        s.buy(buyer, token, seller).0.balance(buyer) >= s.prices[token] ==> s.buy(
            buyer,
            token,
            seller,
        ).0.buy(buyer, token, seller).1 is Ok,
{
    lemma_supply_moved(s.balances, buyer, seller, s.prices[token]);
}

/// Listing gives the principal the right to move the listed token once:
/// after the owner has listed it, the principal can hand it on, and the
/// approval is then used up.
pub proof fn listing_delegates_to_principal(
    s: State,
    owner: AccountId,
    token: TokenId,
    price: u32,
    to: AccountId,
)
    requires
        s.list_for_sale(owner, token, price).1 is Ok,
    ensures
        s.list_for_sale(owner, token, price).0.owner_of(token) == Some(owner),
        s.list_for_sale(owner, token, price).0.may_move(s.principal, token),
        s.list_for_sale(owner, token, price).0.transfer_token(s.principal, to, token).1 is Ok,
        s.list_for_sale(owner, token, price).0.transfer_token(s.principal, to, token).0.owner_of(
            token,
        ) == Some(to),
        !s.list_for_sale(owner, token, price).0.transfer_token(
            s.principal,
            to,
            token,
        ).0.approvals.contains((owner, s.principal, token)),
{
}

} // verus!
