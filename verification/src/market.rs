use vstd::prelude::*;
use crate::key::Key;
use crate::table::{lemma_map_of, map_of, Table};
use crate::token::{copy_ids, tokens_of, Id, TokenId};

verus! {

/// The tokens that a sequence of offers names, in the same order.
pub open spec fn offered(offers: Seq<(Id, u32)>) -> Seq<TokenId> {
    offers.map_values(|offer: (Id, u32)| offer.0@)
}

/// The listings: a price for every token that was ever offered, and the
/// sequence of the offers in the order in which they were made. Nothing ever
/// leaves either; a token offered twice stands twice in the sequence and has
/// the price of its last offer.
pub struct Market {
    price_list: Table<Id, u32>,
    queue: Vec<Id>,
}

impl Market {
    /// The price of every token that has one.
    pub closed spec fn prices(&self) -> Map<TokenId, u32> {
        self.price_list@
    }

    /// The tokens offered, oldest offer first.
    pub closed spec fn sell_list(&self) -> Seq<TokenId> {
        tokens_of(self.queue@)
    }

    pub closed spec fn wf(&self) -> bool {
        &&& self.price_list.wf()
        &&& forall|t: TokenId| #[trigger]
            self.price_list@.dom().contains(t) <==> tokens_of(self.queue@).contains(t)
    }

    /// In a well-formed market a token has a price exactly if it stands in
    /// the sell sequence.
    pub proof fn lemma_listed(&self)
        requires
            self.wf(),
        ensures
            self.prices().dom().finite(),
            forall|t: TokenId| #[trigger]
                self.prices().dom().contains(t) <==> self.sell_list().contains(t),
    {
        self.price_list.lemma_finite();
    }

    /// The market in which nothing was ever offered.
    pub fn new() -> (r: Self)
        ensures
            r.wf(),
            r.prices() == Map::<TokenId, u32>::empty(),
            r.sell_list() == Seq::<TokenId>::empty(),
    {
        let r = Market { price_list: Table::new(), queue: Vec::new() };
        assert(tokens_of(r.queue@) =~= Seq::<TokenId>::empty());
        r
    }

    /// The market after the offers in `offers` were made, one after the
    /// other.
    pub fn from_offers(offers: &Vec<(Id, u32)>) -> (r: Self)
        ensures
            r.wf(),
            r.prices() == map_of(offers@),
            r.sell_list() == offered(offers@),
    {
        let mut r = Market::new();
        let mut i: usize = 0;
        assert(offered(offers@.take(0)) =~= Seq::<TokenId>::empty());
        while i < offers.len()
            invariant
                i <= offers.len(),
                r.wf(),
                r.prices() == map_of(offers@.take(i as int)),
                r.sell_list() == offered(offers@.take(i as int)),
            decreases offers.len() - i,
        {
            r.list(offers[i].0.duplicate(), offers[i].1);
            i += 1;
            assert(offers@.take(i as int).drop_last() =~= offers@.take(i as int - 1));
            assert(offered(offers@.take(i as int)) =~= offered(offers@.take(i as int - 1)).push(
                offers@[i - 1].0@,
            ));
        }
        assert(offers@.take(offers.len() as int) =~= offers@);
        r
    }

    /// The sell sequence with the current price of each of its tokens:
    /// offers that, made again in this order, give this market.
    pub fn offers(&self) -> (r: Vec<(Id, u32)>)
        requires
            self.wf(),
        ensures
            map_of(r@) == self.prices(),
            offered(r@) == self.sell_list(),
    {
        let mut r: Vec<(Id, u32)> = Vec::new();
        let mut i: usize = 0;
        while i < self.queue.len()
            invariant
                i <= self.queue@.len(),
                self.wf(),
                r@.len() == i,
                forall|j: int|
                    0 <= j < i ==> (#[trigger] r@[j]).0@ == self.queue@[j]@
                        && self.price_list@.contains_pair(r@[j].0@, r@[j].1),
            decreases self.queue@.len() - i,
        {
            proof {
                assert(tokens_of(self.queue@)[i as int] == self.queue@[i as int]@);
            }
            let price = match self.price_list.get(&self.queue[i]) {
                Some(price) => price,
                None => 0,
            };
            r.push((self.queue[i].duplicate(), price));
            i += 1;
        }
        proof {
            lemma_map_of(r@);
            assert(offered(r@) =~= tokens_of(self.queue@));
            assert forall|t: TokenId| #[trigger] self.price_list@.dom().contains(t) implies map_of(
                r@,
            ).dom().contains(t) by {
                let seq = tokens_of(self.queue@);
                let j = choose|j: int| 0 <= j < seq.len() && seq[j] == t;
                assert(r@[j].0@ == t);
            }
            assert(map_of(r@) =~= self.price_list@);
        }
        r
    }

    /// The price of `id`, if it has one.
    pub fn price_of(&self, id: &Id) -> (r: Option<u32>)
        requires
            self.wf(),
        ensures
            r == self.prices().get(id@),
    {
        self.price_list.get(id)
    }

    /// Offers `id` at `price`: sets its price and appends it to the sell
    /// sequence.
    pub fn list(&mut self, id: Id, price: u32)
        requires
            old(self).wf(),
        ensures
            final(self).wf(),
            final(self).prices() == old(self).prices().insert(id@, price),
            final(self).sell_list() == old(self).sell_list().push(id@),
    {
        let ghost before = tokens_of(self.queue@);
        self.price_list.insert(id.duplicate(), price);
        self.queue.push(id);
        proof {
            let after = tokens_of(self.queue@);
            assert(after =~= before.push(id@));
            assert forall|t: TokenId| #[trigger]
                self.price_list@.dom().contains(t) <==> after.contains(t) by {
                if before.contains(t) {
                    let i = choose|i: int| 0 <= i < before.len() && before[i] == t;
                    assert(after[i] == t);
                }
                if t == id@ {
                    assert(after[before.len() as int] == t);
                }
                if after.contains(t) {
                    let i = choose|i: int| 0 <= i < after.len() && after[i] == t;
                    if i < before.len() {
                        assert(before[i] == t);
                    }
                }
            }
        }
    }

    /// A snapshot of the sell sequence.
    pub fn for_sale(&self) -> (r: Vec<Id>)
        requires
            self.wf(),
        ensures
            tokens_of(r@) == self.sell_list(),
    {
        copy_ids(&self.queue)
    }
}

} // verus!
