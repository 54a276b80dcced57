use vstd::prelude::*;
use crate::account::AccountId;
use crate::error::LedgerError;
use crate::key::Key;
use crate::table::{lemma_map_of, map_of, Table};
use crate::token::{Id, TokenId};

verus! {

/// The leave that the owner of a token gave to an operator to move that one
/// token. It names the owner, so it says nothing once the token has gone to
/// somebody else, and speaks again if the token comes back.
#[derive(Clone, Debug, PartialEq, Eq)]
pub struct Approval {
    pub owner: AccountId,
    pub operator: AccountId,
    pub token: Id,
}

impl View for Approval {
    type V = (AccountId, AccountId, TokenId);

    open spec fn view(&self) -> (AccountId, AccountId, TokenId) {
        (self.owner, self.operator, self.token@)
    }
}

impl Key for Approval {
    fn same(&self, other: &Approval) -> (r: bool) {
        self.owner.same(&other.owner) && self.operator.same(&other.operator) && self.token.same(
            &other.token,
        )
    }

    fn duplicate(&self) -> (r: Approval) {
        Approval { owner: self.owner, operator: self.operator, token: self.token.duplicate() }
    }
}

/// The approvals that a sequence of them records.
pub open spec fn approval_set(approvals: Seq<Approval>) -> Set<(AccountId, AccountId, TokenId)> {
    approvals.map_values(|a: Approval| a@).to_set()
}

/// Whether `caller` may move `token`: the token has an owner, and `caller`
/// is that owner or holds the owner's leave for this token.
pub open spec fn may_move(
    owners: Map<TokenId, AccountId>,
    approvals: Set<(AccountId, AccountId, TokenId)>,
    caller: AccountId,
    token: TokenId,
) -> bool {
    owners.dom().contains(token) && (owners[token] == caller || approvals.contains(
        (owners[token], caller, token),
    ))
}

/// The token registry: who owns which token, and which operators may move
/// which tokens for their owners. A token has an owner or does not exist.
pub struct TokenRegistry {
    holders: Table<Id, AccountId>,
    leaves: Table<Approval, bool>,
}

impl TokenRegistry {
    /// The owner of every token that exists.
    pub closed spec fn owners(&self) -> Map<TokenId, AccountId> {
        self.holders@
    }

    /// The approvals on record, each as (owner, operator, token).
    pub closed spec fn approvals(&self) -> Set<(AccountId, AccountId, TokenId)> {
        self.leaves@.dom()
    }

    pub closed spec fn wf(&self) -> bool {
        &&& self.holders.wf()
        &&& self.leaves.wf()
    }

    /// A well-formed registry holds finitely many tokens and approvals.
    pub proof fn lemma_finite(&self)
        requires
            self.wf(),
        ensures
            self.owners().dom().finite(),
            self.approvals().finite(),
    {
        self.holders.lemma_finite();
        self.leaves.lemma_finite();
    }

    /// The registry without tokens.
    pub fn new() -> (r: Self)
        ensures
            r.wf(),
            r.owners() == Map::<TokenId, AccountId>::empty(),
            r.approvals() == Set::<(AccountId, AccountId, TokenId)>::empty(),
    {
        let r = TokenRegistry { holders: Table::new(), leaves: Table::new() };
        assert(r.leaves@.dom() =~= Set::<(AccountId, AccountId, TokenId)>::empty());
        r
    }

    /// The registry that holds the tokens that `tokens` write, one after the
    /// other, and the approvals in `approvals`.
    pub fn from_parts(tokens: &Vec<(Id, AccountId)>, approvals: &Vec<Approval>) -> (r: Self)
        ensures
            r.wf(),
            r.owners() == map_of(tokens@),
            r.approvals() == approval_set(approvals@),
    {
        let mut leaves: Table<Approval, bool> = Table::new();
        let mut i: usize = 0;
        while i < approvals.len()
            invariant
                i <= approvals.len(),
                leaves.wf(),
                leaves@.dom() =~= approval_set(approvals@.take(i as int)),
            decreases approvals.len() - i,
        {
            let ghost before = approvals@.take(i as int).map_values(|a: Approval| a@);
            leaves.insert(approvals[i].duplicate(), true);
            i += 1;
            proof {
                let after = approvals@.take(i as int).map_values(|a: Approval| a@);
                assert(after =~= before.push(approvals@[i - 1]@));
                assert forall|a: (AccountId, AccountId, TokenId)|
                    leaves@.dom().contains(a) <==> #[trigger] after.contains(a) by {
                    if before.contains(a) {
                        let j = choose|j: int| 0 <= j < before.len() && before[j] == a;
                        assert(after[j] == a);
                    }
                    if a == approvals@[i - 1]@ {
                        assert(after[i - 1] == a);
                    }
                    if after.contains(a) {
                        let j = choose|j: int| 0 <= j < after.len() && after[j] == a;
                        if j < i - 1 {
                            assert(before[j] == a);
                        }
                    }
                }
            }
        }
        assert(approvals@.take(approvals.len() as int) =~= approvals@);
        TokenRegistry { holders: Table::from_entries(tokens), leaves }
    }

    /// Every token with its owner, each token once.
    pub fn tokens(&self) -> (r: Vec<(Id, AccountId)>)
        requires
            self.wf(),
        ensures
            map_of(r@) == self.owners(),
    {
        self.holders.entries()
    }

    /// The approvals on record.
    pub fn approval_list(&self) -> (r: Vec<Approval>)
        requires
            self.wf(),
        ensures
            approval_set(r@) == self.approvals(),
    {
        let entries = self.leaves.entries();
        let mut r: Vec<Approval> = Vec::new();
        let mut i: usize = 0;
        while i < entries.len()
            invariant
                i <= entries.len(),
                r@.len() == i,
                forall|j: int| 0 <= j < i ==> (#[trigger] r@[j])@ == entries@[j].0@,
            decreases entries.len() - i,
        {
            r.push(entries[i].0.duplicate());
            i += 1;
        }
        proof {
            lemma_map_of(entries@);
            let views = r@.map_values(|a: Approval| a@);
            assert forall|a: (AccountId, AccountId, TokenId)|
                self.leaves@.dom().contains(a) <==> #[trigger] views.contains(a) by {
                if self.leaves@.dom().contains(a) {
                    let j = choose|j: int|
                        0 <= j < entries@.len() && (#[trigger] entries@[j]).0@ == a;
                    assert(views[j] == a);
                }
                if views.contains(a) {
                    let j = choose|j: int| 0 <= j < views.len() && views[j] == a;
                    assert(entries@[j].0@ == a);
                }
            }
            assert(approval_set(r@) =~= self.leaves@.dom());
        }
        r
    }

    /// The current owner of `id`, or `None` if the token does not exist.
    pub fn owner_of(&self, id: &Id) -> (r: Option<AccountId>)
        requires
            self.wf(),
        ensures
            r == self.owners().get(id@),
    {
        self.holders.get(id)
    }

    /// Whether `operator` holds the leave of `owner` to move `id`.
    pub fn allowance(&self, owner: &AccountId, operator: &AccountId, id: &Id) -> (r: bool)
        requires
            self.wf(),
        ensures
            r == self.approvals().contains((*owner, *operator, id@)),
    {
        let leave = Approval { owner: *owner, operator: *operator, token: id.duplicate() };
        self.leaves.contains(&leave)
    }

    /// Brings the token `id` into being, owned by `owner`, unless it exists.
    pub fn mint(&mut self, owner: AccountId, id: Id) -> (r: Result<(), LedgerError>)
        requires
            old(self).wf(),
        ensures
            final(self).wf(),
            final(self).approvals() == old(self).approvals(),
            !old(self).owners().dom().contains(id@) ==> r == Ok::<(), LedgerError>(())
                && final(self).owners() == old(self).owners().insert(id@, owner),
            old(self).owners().dom().contains(id@) ==> r == Err::<(), LedgerError>(
                LedgerError::TokenExists,
            ) && final(self).owners() == old(self).owners(),
    {
        if self.holders.contains(&id) {
            return Err(LedgerError::TokenExists);
        }
        self.holders.insert(id, owner);
        Ok(())
    }

    /// Removes the token `id`, whoever owns it.
    pub fn burn(&mut self, id: &Id) -> (r: Result<(), LedgerError>)
        requires
            old(self).wf(),
        ensures
            final(self).wf(),
            final(self).approvals() == old(self).approvals(),
            old(self).owners().dom().contains(id@) ==> r == Ok::<(), LedgerError>(())
                && final(self).owners() == old(self).owners().remove(id@),
            !old(self).owners().dom().contains(id@) ==> r == Err::<(), LedgerError>(
                LedgerError::TokenNotFound,
            ) && final(self).owners() == old(self).owners(),
    {
        if !self.holders.contains(id) {
            return Err(LedgerError::TokenNotFound);
        }
        self.holders.remove(id);
        Ok(())
    }

    /// Removes the token `id` for `holder`, who must be its owner.
    pub fn burn_from(&mut self, holder: &AccountId, id: &Id) -> (r: Result<(), LedgerError>)
        requires
            old(self).wf(),
        ensures
            final(self).wf(),
            final(self).approvals() == old(self).approvals(),
            match old(self).owners().get(id@) {
                None => r == Err::<(), LedgerError>(LedgerError::TokenNotFound)
                    && final(self).owners() == old(self).owners(),
                Some(owner) => if owner == *holder {
                    r == Ok::<(), LedgerError>(()) && final(self).owners() == old(
                        self,
                    ).owners().remove(id@)
                } else {
                    r == Err::<(), LedgerError>(LedgerError::NotTokenOwner)
                        && final(self).owners() == old(self).owners()
                },
            },
    {
        match self.holders.get(id) {
            None => Err(LedgerError::TokenNotFound),
            Some(owner) => {
                if !owner.same(holder) {
                    return Err(LedgerError::NotTokenOwner);
                }
                self.holders.remove(id);
                Ok(())
            },
        }
    }

    /// Records that `caller`, who must own `id`, lets `operator` move it.
    pub fn approve(&mut self, caller: &AccountId, operator: &AccountId, id: &Id) -> (r: Result<
        (),
        LedgerError,
    >)
        requires
            old(self).wf(),
        ensures
            final(self).wf(),
            final(self).owners() == old(self).owners(),
            match old(self).owners().get(id@) {
                None => r == Err::<(), LedgerError>(LedgerError::TokenNotFound)
                    && final(self).approvals() == old(self).approvals(),
                Some(owner) => if owner == *caller {
                    r == Ok::<(), LedgerError>(()) && final(self).approvals() == old(
                        self,
                    ).approvals().insert((*caller, *operator, id@))
                } else {
                    r == Err::<(), LedgerError>(LedgerError::NotTokenOwner)
                        && final(self).approvals() == old(self).approvals()
                },
            },
    {
        match self.holders.get(id) {
            None => Err(LedgerError::TokenNotFound),
            Some(owner) => {
                if !owner.same(caller) {
                    return Err(LedgerError::NotTokenOwner);
                }
                let leave = Approval { owner: *caller, operator: *operator, token: id.duplicate() };
                self.leaves.insert(leave, true);
                assert(self.leaves@.dom() =~= old(self).leaves@.dom().insert(
                    (*caller, *operator, id@),
                ));
                Ok(())
            },
        }
    }

    /// Hands the token `id` to `to`, if `caller` may move it. An approval
    /// that `caller` held from the owner for this token is used up.
    pub fn transfer_token(&mut self, caller: &AccountId, to: AccountId, id: &Id) -> (r: Result<
        (),
        LedgerError,
    >)
        requires
            old(self).wf(),
        ensures
            final(self).wf(),
            match old(self).owners().get(id@) {
                None => r == Err::<(), LedgerError>(LedgerError::TokenNotFound)
                    && final(self).owners() == old(self).owners() && final(self).approvals()
                    == old(self).approvals(),
                Some(owner) => if may_move(old(self).owners(), old(self).approvals(), *caller, id@) {
                    r == Ok::<(), LedgerError>(()) && final(self).owners() == old(
                        self,
                    ).owners().insert(id@, to) && final(self).approvals() == old(
                        self,
                    ).approvals().remove((owner, *caller, id@))
                } else {
                    r == Err::<(), LedgerError>(LedgerError::NotTokenOwner)
                        && final(self).owners() == old(self).owners() && final(self).approvals()
                        == old(self).approvals()
                },
            },
    {
        match self.holders.get(id) {
            None => Err(LedgerError::TokenNotFound),
            Some(owner) => {
                let leave = Approval { owner, operator: *caller, token: id.duplicate() };
                if !owner.same(caller) && !self.leaves.contains(&leave) {
                    return Err(LedgerError::NotTokenOwner);
                }
                self.leaves.remove(&leave);
                self.holders.insert(id.duplicate(), to);
                assert(self.leaves@.dom() =~= old(self).leaves@.dom().remove((owner, *caller, id@)));
                Ok(())
            },
        }
    }
}

} // verus!
