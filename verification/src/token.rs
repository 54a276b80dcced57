use vstd::prelude::*;
use crate::key::Key;

verus! {

/// The identifier of a token: an unsigned integer of one of five widths, or
/// a raw byte string. Identifiers of different kinds are different tokens,
/// whatever number they hold.
#[derive(Clone, Debug, PartialEq, Eq, PartialOrd, Ord, Hash)]
pub enum Id {
    U8(u8),
    U16(u16),
    U32(u32),
    U64(u64),
    U128(u128),
    Bytes(Vec<u8>),
}

/// What an [`Id`] stands for: the same kinds, with the bytes as a sequence.
pub ghost enum TokenId {
    U8(u8),
    U16(u16),
    U32(u32),
    U64(u64),
    U128(u128),
    Bytes(Seq<u8>),
}

impl View for Id {
    type V = TokenId;

    open spec fn view(&self) -> TokenId {
        match self {
            Id::U8(n) => TokenId::U8(*n),
            Id::U16(n) => TokenId::U16(*n),
            Id::U32(n) => TokenId::U32(*n),
            Id::U64(n) => TokenId::U64(*n),
            Id::U128(n) => TokenId::U128(*n),
            Id::Bytes(b) => TokenId::Bytes(b@),
        }
    }
}

/// The tokens that a sequence of identifiers names, in the same order.
pub open spec fn tokens_of(ids: Seq<Id>) -> Seq<TokenId> {
    ids.map_values(|id: Id| id@)
}

fn bytes_equal(a: &Vec<u8>, b: &Vec<u8>) -> (r: bool)
    ensures
        r == (a@ == b@),
{
    if a.len() != b.len() {
        return false;
    }
    let mut i: usize = 0;
    while i < a.len()
        invariant
            i <= a.len(),
            a.len() == b.len(),
            forall|j: int| 0 <= j < i ==> a@[j] == b@[j],
        decreases a.len() - i,
    {
        if a[i] != b[i] {
            return false;
        }
        i += 1;
    }
    assert(a@ =~= b@);
    true
}

fn bytes_copy(a: &Vec<u8>) -> (r: Vec<u8>)
    ensures
        r@ == a@,
{
    let mut r: Vec<u8> = Vec::new();
    let mut i: usize = 0;
    while i < a.len()
        invariant
            i <= a.len(),
            r@ == a@.take(i as int),
        decreases a.len() - i,
    {
        r.push(a[i]);
        i += 1;
        assert(r@ =~= a@.take(i as int));
    }
    assert(a@.take(a.len() as int) =~= a@);
    r
}

impl Key for Id {
    /// Whether `self` and `other` identify the same token.
    fn same(&self, other: &Id) -> (r: bool) {
        match (self, other) {
            (Id::U8(a), Id::U8(b)) => *a == *b,
            (Id::U16(a), Id::U16(b)) => *a == *b,
            (Id::U32(a), Id::U32(b)) => *a == *b,
            (Id::U64(a), Id::U64(b)) => *a == *b,
            (Id::U128(a), Id::U128(b)) => *a == *b,
            (Id::Bytes(a), Id::Bytes(b)) => bytes_equal(a, b),
            _ => false,
        }
    }

    fn duplicate(&self) -> (r: Id) {
        match self {
            Id::U8(n) => Id::U8(*n),
            Id::U16(n) => Id::U16(*n),
            Id::U32(n) => Id::U32(*n),
            Id::U64(n) => Id::U64(*n),
            Id::U128(n) => Id::U128(*n),
            Id::Bytes(b) => Id::Bytes(bytes_copy(b)),
        }
    }
}

/// A second vector with the same identifiers in the same order.
pub fn copy_ids(ids: &Vec<Id>) -> (r: Vec<Id>)
    ensures
        tokens_of(r@) == tokens_of(ids@),
{
    let mut r: Vec<Id> = Vec::new();
    let mut i: usize = 0;
    while i < ids.len()
        invariant
            i <= ids.len(),
            r@.len() == i,
            forall|j: int| 0 <= j < i ==> (#[trigger] r@[j])@ == ids@[j]@,
        decreases ids.len() - i,
    {
        r.push(ids[i].duplicate());
        i += 1;
    }
    assert(tokens_of(r@) =~= tokens_of(ids@));
    r
}

} // verus!
