use game_ledger::account::AccountId;
use game_ledger::error::LedgerError;
use game_ledger::game::Game;
use game_ledger::registry::Approval;
use game_ledger::snapshot::Snapshot;
use game_ledger::token::Id;

fn alice() -> AccountId {
    AccountId::from([1; 32])
}

fn bob() -> AccountId {
    AccountId::from([2; 32])
}

fn carol() -> AccountId {
    AccountId::from([3; 32])
}

/// An engine in which `alice` is the principal with 1000 and token #1, and
/// `bob` holds 500.
fn funded() -> Game {
    let snapshot = Snapshot {
        principal: alice(),
        balances: vec![(alice(), 1000), (bob(), 500)],
        tokens: vec![(Id::U8(1), alice())],
        approvals: vec![],
        offers: vec![],
    };
    Game::restore(&snapshot).expect("the supply fits")
}

#[test]
#[allow(non_snake_case)]
fn Default_Transfer_Money() {
    let alice = AccountId::from([1; 32]);
    let bob = AccountId::from([2; 32]);
    let mut game = Game::new(alice);
    let owner = game.owner();
    let owner_amount = game.checKBalance(owner);
    assert_eq!(owner_amount, 1000);

    let _ = game.transferMoney(alice, bob, 100);
    assert_eq!(game.checKBalance(alice), 900);
    assert_eq!(game.checKBalance(bob), 100);

    let _ = game.transferMoney(alice, bob, 1000);
    assert_eq!(game.checKBalance(alice), 900);
    assert_eq!(game.checKBalance(bob), 100);
}

#[test]
fn test_mint() {
    let alice = AccountId::from([1; 32]);
    let mut game = Game::new(alice);

    let result = game.mint(alice, Id::U32(10));
    assert_eq!(result, std::result::Result::Ok(()));

    let token_holder = game.owner_of(Id::U32(10));
    assert_eq!(token_holder, Some(alice))
}

#[test]
fn new_sets_principal_balance_and_first_token() {
    let game = Game::new(alice());
    assert_eq!(game.owner(), alice());
    assert_eq!(game.checKBalance(alice()), 1000);
    assert_eq!(game.checKBalance(bob()), 0);
    assert_eq!(game.owner_of(Id::U8(1)), Some(alice()));
    assert_eq!(game.owner_of(Id::U16(1)), None);
    assert_eq!(game.ForSaleNFT(), Vec::<Id>::new());
}

#[test]
fn transfer_conserves_the_sum_of_balances() {
    let mut game = Game::new(alice());
    assert_eq!(game.transferMoney(alice(), bob(), 250), Ok(()));
    assert_eq!(game.transferMoney(bob(), carol(), 100), Ok(()));
    assert_eq!(game.transferMoney(carol(), alice(), 40), Ok(()));
    assert_eq!(game.checKBalance(alice()), 790);
    assert_eq!(game.checKBalance(bob()), 150);
    assert_eq!(game.checKBalance(carol()), 60);
    let sum = game.checKBalance(alice()) + game.checKBalance(bob()) + game.checKBalance(carol());
    assert_eq!(sum, 1000);
}

#[test]
fn transfer_of_the_whole_balance_and_of_nothing() {
    let mut game = Game::new(alice());
    assert_eq!(game.transferMoney(alice(), bob(), 1000), Ok(()));
    assert_eq!(game.checKBalance(alice()), 0);
    assert_eq!(game.checKBalance(bob()), 1000);
    assert_eq!(game.transferMoney(alice(), bob(), 0), Ok(()));
    assert_eq!(game.transferMoney(carol(), bob(), 0), Ok(()));
    assert_eq!(game.checKBalance(carol()), 0);
    assert_eq!(game.checKBalance(bob()), 1000);
}

#[test]
fn transfer_to_oneself_changes_no_balance() {
    let mut game = Game::new(alice());
    assert_eq!(game.transferMoney(alice(), alice(), 400), Ok(()));
    assert_eq!(game.checKBalance(alice()), 1000);
    assert_eq!(game.transferMoney(alice(), alice(), 1001), Err(LedgerError::InsufficientFunds));
    assert_eq!(game.checKBalance(alice()), 1000);
}

#[test]
fn insufficient_transfer_changes_nothing() {
    let mut game = Game::new(alice());
    assert_eq!(game.transferMoney(alice(), bob(), 300), Ok(()));
    assert_eq!(game.transferMoney(bob(), alice(), 301), Err(LedgerError::InsufficientFunds));
    assert_eq!(game.checKBalance(alice()), 700);
    assert_eq!(game.checKBalance(bob()), 300);
    assert_eq!(game.transferMoney(carol(), alice(), 1), Err(LedgerError::InsufficientFunds));
    assert_eq!(game.checKBalance(carol()), 0);
    assert_eq!(game.checKBalance(alice()), 700);
}

#[test]
fn mint_assigns_the_caller_and_refuses_a_second_mint() {
    let mut game = Game::new(alice());
    assert_eq!(game.mint(bob(), Id::U64(7)), Ok(()));
    assert_eq!(game.owner_of(Id::U64(7)), Some(bob()));
    assert_eq!(game.mint(carol(), Id::U64(7)), Err(LedgerError::TokenExists));
    assert_eq!(game.mint(bob(), Id::U64(7)), Err(LedgerError::TokenExists));
    assert_eq!(game.owner_of(Id::U64(7)), Some(bob()));
    assert_eq!(game.mint(bob(), Id::U8(1)), Err(LedgerError::TokenExists));
    assert_eq!(game.owner_of(Id::U8(1)), Some(alice()));
}

#[test]
fn identifiers_of_different_kinds_are_different_tokens() {
    let mut game = Game::new(alice());
    assert_eq!(game.mint(bob(), Id::U16(1)), Ok(()));
    assert_eq!(game.mint(carol(), Id::U128(1)), Ok(()));
    assert_eq!(game.mint(bob(), Id::Bytes(vec![1])), Ok(()));
    assert_eq!(game.mint(carol(), Id::Bytes(vec![1, 0])), Ok(()));
    assert_eq!(game.mint(carol(), Id::Bytes(vec![])), Ok(()));
    assert_eq!(game.mint(alice(), Id::Bytes(vec![1])), Err(LedgerError::TokenExists));
    assert_eq!(game.owner_of(Id::U8(1)), Some(alice()));
    assert_eq!(game.owner_of(Id::U16(1)), Some(bob()));
    assert_eq!(game.owner_of(Id::U128(1)), Some(carol()));
    assert_eq!(game.owner_of(Id::Bytes(vec![1])), Some(bob()));
    assert_eq!(game.owner_of(Id::Bytes(vec![1, 0])), Some(carol()));
    assert_eq!(game.owner_of(Id::Bytes(vec![])), Some(carol()));
    assert_eq!(game.owner_of(Id::U32(1)), None);
    assert_eq!(game.owner_of(Id::Bytes(vec![2])), None);
}

#[test]
fn holder_burn_is_for_the_owner_only() {
    let mut game = Game::new(alice());
    assert_eq!(game.mint(bob(), Id::U32(5)), Ok(()));
    assert_eq!(game.Holder_burn(carol(), Id::U32(5)), Err(LedgerError::NotTokenOwner));
    assert_eq!(game.Holder_burn(alice(), Id::U32(5)), Err(LedgerError::NotTokenOwner));
    assert_eq!(game.owner_of(Id::U32(5)), Some(bob()));
    assert_eq!(game.Holder_burn(bob(), Id::U32(5)), Ok(()));
    assert_eq!(game.owner_of(Id::U32(5)), None);
    assert_eq!(game.Holder_burn(bob(), Id::U32(5)), Err(LedgerError::TokenNotFound));
    assert_eq!(game.mint(carol(), Id::U32(5)), Ok(()));
    assert_eq!(game.owner_of(Id::U32(5)), Some(carol()));
}

#[test]
fn privileged_burn_is_for_the_principal_only() {
    let mut game = Game::new(alice());
    assert_eq!(game.mint(bob(), Id::U32(5)), Ok(()));
    assert_eq!(game.burn(bob(), bob(), Id::U32(5)), Err(LedgerError::Unauthorized));
    assert_eq!(game.burn(carol(), bob(), Id::U32(5)), Err(LedgerError::Unauthorized));
    assert_eq!(game.burn(carol(), bob(), Id::U32(6)), Err(LedgerError::Unauthorized));
    assert_eq!(game.owner_of(Id::U32(5)), Some(bob()));
    assert_eq!(game.burn(alice(), carol(), Id::U32(5)), Ok(()));
    assert_eq!(game.owner_of(Id::U32(5)), None);
    assert_eq!(game.burn(alice(), bob(), Id::U32(5)), Err(LedgerError::TokenNotFound));
    assert_eq!(game.burn(alice(), alice(), Id::U8(1)), Ok(()));
    assert_eq!(game.owner_of(Id::U8(1)), None);
}

#[test]
fn listing_is_for_the_owner_only() {
    let mut game = Game::new(alice());
    assert_eq!(game.AddIntoSellList(bob(), Id::U8(1), 10), Err(LedgerError::NotTokenOwner));
    assert_eq!(game.AddIntoSellList(alice(), Id::U8(2), 10), Err(LedgerError::NotTokenOwner));
    assert_eq!(game.ForSaleNFT(), Vec::<Id>::new());
    assert_eq!(game.buy(bob(), Id::U8(1), alice()), Err(LedgerError::NotListed));
    assert_eq!(game.AddIntoSellList(alice(), Id::U8(1), 10), Ok(()));
    assert_eq!(game.ForSaleNFT(), vec![Id::U8(1)]);
}

#[test]
fn listing_twice_keeps_both_entries_and_the_last_price() {
    let mut game = funded();
    assert_eq!(game.mint(bob(), Id::U16(9)), Ok(()));
    assert_eq!(game.AddIntoSellList(alice(), Id::U8(1), 100), Ok(()));
    assert_eq!(game.AddIntoSellList(bob(), Id::U16(9), 5), Ok(()));
    assert_eq!(game.AddIntoSellList(alice(), Id::U8(1), 30), Ok(()));
    assert_eq!(game.ForSaleNFT(), vec![Id::U8(1), Id::U16(9), Id::U8(1)]);
    assert_eq!(game.buy(bob(), Id::U8(1), alice()), Ok(()));
    assert_eq!(game.checKBalance(bob()), 470);
    assert_eq!(game.checKBalance(alice()), 1030);
}

#[test]
fn purchase_moves_the_price_and_can_be_made_again() {
    let mut game = funded();
    assert_eq!(game.checKBalance(alice()), 1000);
    assert_eq!(game.checKBalance(bob()), 500);
    assert_eq!(game.owner_of(Id::U8(1)), Some(alice()));
    assert_eq!(game.AddIntoSellList(alice(), Id::U8(1), 100), Ok(()));

    assert_eq!(game.buy(bob(), Id::U8(1), alice()), Ok(()));
    assert_eq!(game.checKBalance(bob()), 400);
    assert_eq!(game.checKBalance(alice()), 1100);
    assert_eq!(game.owner_of(Id::U8(1)), Some(alice()));

    assert_eq!(game.buy(bob(), Id::U8(1), alice()), Ok(()));
    assert_eq!(game.checKBalance(bob()), 300);
    assert_eq!(game.checKBalance(alice()), 1200);
    assert_eq!(game.owner_of(Id::U8(1)), Some(alice()));
    assert_eq!(game.ForSaleNFT(), vec![Id::U8(1)]);
}

#[test]
fn purchase_checks_listing_then_funds_then_seller() {
    let mut game = funded();
    assert_eq!(game.mint(carol(), Id::U8(2)), Ok(()));
    assert_eq!(game.AddIntoSellList(alice(), Id::U8(1), 501), Ok(()));
    assert_eq!(game.AddIntoSellList(carol(), Id::U8(2), 500), Ok(()));
    // not listed comes first, whatever the buyer holds and whoever is named
    assert_eq!(game.buy(carol(), Id::U8(3), bob()), Err(LedgerError::NotListed));
    // then the buyer's funds, even with a wrong seller
    assert_eq!(game.buy(bob(), Id::U8(1), carol()), Err(LedgerError::InsufficientFunds));
    assert_eq!(game.buy(bob(), Id::U8(1), alice()), Err(LedgerError::InsufficientFunds));
    // then the seller
    assert_eq!(game.buy(bob(), Id::U8(2), alice()), Err(LedgerError::SellerMismatch));
    assert_eq!(game.checKBalance(bob()), 500);
    assert_eq!(game.checKBalance(carol()), 0);
    // the exact price is enough
    assert_eq!(game.buy(bob(), Id::U8(2), carol()), Ok(()));
    assert_eq!(game.checKBalance(bob()), 0);
    assert_eq!(game.checKBalance(carol()), 500);
}

#[test]
fn purchase_of_a_burned_token_finds_no_seller() {
    let mut game = funded();
    assert_eq!(game.AddIntoSellList(alice(), Id::U8(1), 100), Ok(()));
    assert_eq!(game.Holder_burn(alice(), Id::U8(1)), Ok(()));
    assert_eq!(game.buy(bob(), Id::U8(1), alice()), Err(LedgerError::SellerMismatch));
    assert_eq!(game.checKBalance(bob()), 500);
    assert_eq!(game.ForSaleNFT(), vec![Id::U8(1)]);
}

#[test]
fn owner_transfers_its_token() {
    let mut game = Game::new(alice());
    assert_eq!(game.transfer(bob(), bob(), Id::U8(1), vec![]), Err(LedgerError::NotTokenOwner));
    assert_eq!(game.transfer(alice(), bob(), Id::U8(9), vec![]), Err(LedgerError::TokenNotFound));
    assert_eq!(game.transfer(alice(), bob(), Id::U8(1), vec![1, 2, 3]), Ok(()));
    assert_eq!(game.owner_of(Id::U8(1)), Some(bob()));
    // the principal has no say over a token that was never listed
    assert_eq!(game.transfer(alice(), carol(), Id::U8(1), vec![]), Err(LedgerError::NotTokenOwner));
    assert_eq!(game.transfer(bob(), carol(), Id::U8(1), vec![]), Ok(()));
    assert_eq!(game.owner_of(Id::U8(1)), Some(carol()));
}

#[test]
fn principal_moves_a_listed_token_once() {
    let mut game = Game::new(alice());
    assert_eq!(game.mint(bob(), Id::U32(10)), Ok(()));
    assert_eq!(game.transfer(alice(), carol(), Id::U32(10), vec![]), Err(LedgerError::NotTokenOwner));
    assert_eq!(game.AddIntoSellList(bob(), Id::U32(10), 5), Ok(()));
    // listing delegates to the principal, not to anybody else
    assert_eq!(game.transfer(carol(), carol(), Id::U32(10), vec![]), Err(LedgerError::NotTokenOwner));
    assert_eq!(game.transfer(alice(), carol(), Id::U32(10), vec![]), Ok(()));
    assert_eq!(game.owner_of(Id::U32(10)), Some(carol()));
    // the approval came from bob and is used up
    assert_eq!(game.transfer(alice(), bob(), Id::U32(10), vec![]), Err(LedgerError::NotTokenOwner));
    assert_eq!(game.transfer(carol(), bob(), Id::U32(10), vec![]), Ok(()));
    assert_eq!(game.transfer(alice(), carol(), Id::U32(10), vec![]), Err(LedgerError::NotTokenOwner));
}

#[test]
fn approval_outlives_a_transfer_by_the_owner() {
    let mut game = Game::new(alice());
    assert_eq!(game.mint(bob(), Id::U32(10)), Ok(()));
    assert_eq!(game.AddIntoSellList(bob(), Id::U32(10), 5), Ok(()));
    assert_eq!(game.transfer(bob(), carol(), Id::U32(10), vec![]), Ok(()));
    // carol gave no approval
    assert_eq!(game.transfer(alice(), bob(), Id::U32(10), vec![]), Err(LedgerError::NotTokenOwner));
    assert_eq!(game.transfer(carol(), bob(), Id::U32(10), vec![]), Ok(()));
    // back with bob, whose approval still stands
    assert_eq!(game.transfer(alice(), carol(), Id::U32(10), vec![]), Ok(()));
    assert_eq!(game.owner_of(Id::U32(10)), Some(carol()));
}

#[test]
fn snapshot_round_trip_keeps_the_state() {
    let mut game = funded();
    assert_eq!(game.mint(bob(), Id::Bytes(vec![7, 7])), Ok(()));
    assert_eq!(game.AddIntoSellList(bob(), Id::Bytes(vec![7, 7]), 20), Ok(()));
    assert_eq!(game.AddIntoSellList(alice(), Id::U8(1), 100), Ok(()));
    assert_eq!(game.transferMoney(bob(), carol(), 50), Ok(()));

    let snapshot = game.snapshot();
    assert_eq!(snapshot.principal, alice());
    assert_eq!(snapshot.offers, vec![(Id::Bytes(vec![7, 7]), 20), (Id::U8(1), 100)]);
    assert_eq!(
        snapshot.approvals,
        vec![Approval { owner: bob(), operator: alice(), token: Id::Bytes(vec![7, 7]) }, Approval {
            owner: alice(),
            operator: alice(),
            token: Id::U8(1),
        }]
    );

    let mut back = Game::restore(&snapshot).expect("a snapshot of an engine can be restored");
    assert_eq!(back.owner(), alice());
    assert_eq!(back.checKBalance(alice()), 1000);
    assert_eq!(back.checKBalance(bob()), 450);
    assert_eq!(back.checKBalance(carol()), 50);
    assert_eq!(back.owner_of(Id::U8(1)), Some(alice()));
    assert_eq!(back.owner_of(Id::Bytes(vec![7, 7])), Some(bob()));
    assert_eq!(back.ForSaleNFT(), vec![Id::Bytes(vec![7, 7]), Id::U8(1)]);
    assert_eq!(back.buy(carol(), Id::Bytes(vec![7, 7]), bob()), Ok(()));
    assert_eq!(back.checKBalance(carol()), 30);
    assert_eq!(back.transfer(alice(), carol(), Id::Bytes(vec![7, 7]), vec![]), Ok(()));
    assert_eq!(back.owner_of(Id::Bytes(vec![7, 7])), Some(carol()));
}

#[test]
fn restore_reads_lists_as_writes_and_refuses_too_large_a_supply() {
    let snapshot = Snapshot {
        principal: alice(),
        balances: vec![(alice(), u32::MAX), (bob(), 7), (alice(), 3)],
        tokens: vec![(Id::U8(1), alice()), (Id::U8(1), bob())],
        approvals: vec![],
        offers: vec![(Id::U8(1), 9), (Id::U8(1), 4)],
    };
    let mut game = Game::restore(&snapshot).expect("the last balance of each account counts");
    assert_eq!(game.checKBalance(alice()), 3);
    assert_eq!(game.checKBalance(bob()), 7);
    assert_eq!(game.owner_of(Id::U8(1)), Some(bob()));
    assert_eq!(game.ForSaleNFT(), vec![Id::U8(1), Id::U8(1)]);
    assert_eq!(game.buy(alice(), Id::U8(1), bob()), Err(LedgerError::InsufficientFunds));
    assert_eq!(game.buy(bob(), Id::U8(1), bob()), Ok(()));
    assert_eq!(game.checKBalance(bob()), 7);

    let full = Snapshot {
        principal: alice(),
        balances: vec![(alice(), u32::MAX), (bob(), 0)],
        tokens: vec![],
        approvals: vec![],
        offers: vec![],
    };
    let mut game = Game::restore(&full).expect("a supply of u32::MAX fits");
    assert_eq!(game.transferMoney(alice(), bob(), u32::MAX), Ok(()));
    assert_eq!(game.checKBalance(bob()), u32::MAX);
    assert_eq!(game.checKBalance(alice()), 0);

    let too_much = Snapshot {
        principal: alice(),
        balances: vec![(alice(), u32::MAX), (bob(), 1)],
        tokens: vec![],
        approvals: vec![],
        offers: vec![],
    };
    assert!(Game::restore(&too_much).is_none());
}
