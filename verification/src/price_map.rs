//! Clearing prices by token: a map from token address to price that is kept
//! in the order of the addresses, so that walking it gives the same sequence
//! whatever order the entries were put in.

use crate::byte_array::{Address, KeyOrder};
use crate::u256::{be_value, lemma_be_value_injective, U256};
use vstd::prelude::*;

verus! {

/// Prices by token address, in ascending order of the addresses.
#[derive(Clone, Debug, PartialEq, Eq)]
pub struct PriceMap {
    /// The entries; `wf` says how they are ordered.
    pub entries: Vec<(Address, U256)>,
}

/// The place of an address in the order of addresses.
pub open spec fn rank(token: Address) -> nat {
    be_value(token.0@)
}

/// The addresses of `entries` ascend strictly, so that none occurs twice.
pub open spec fn ascending(entries: Seq<(Address, U256)>) -> bool {
    forall|i: int, j: int|
        0 <= i < j < entries.len() ==> rank(#[trigger] entries[i].0) < rank(
            #[trigger] entries[j].0,
        )
}

/// The number of entries whose address comes before `token`: the place where
/// an entry for `token` stands or would stand.
pub open spec fn place_of(entries: Seq<(Address, U256)>, token: Address) -> int
    decreases entries.len(),
{
    if entries.len() == 0 {
        0
    } else if rank(entries.last().0) < rank(token) {
        entries.len() as int
    } else {
        place_of(entries.drop_last(), token)
    }
}

/// The price that `entries` hold for `token`.
pub open spec fn price_of(entries: Seq<(Address, U256)>, token: Address) -> Option<U256> {
    let p = place_of(entries, token);
    if p < entries.len() && entries[p].0 == token {
        Some(entries[p].1)
    } else {
        None
    }
}

/// `entries` with the price of `token` set to `price`.
pub open spec fn with_price(entries: Seq<(Address, U256)>, token: Address, price: U256) -> Seq<
    (Address, U256),
> {
    let p = place_of(entries, token);
    if p < entries.len() && entries[p].0 == token {
        entries.update(p, (token, price))
    } else {
        entries.insert(p, (token, price))
    }
}

/// In ascending entries, the place of `token` parts the addresses before it
/// from those that are not.
pub proof fn lemma_place_of(entries: Seq<(Address, U256)>, token: Address)
    requires
        ascending(entries),
    ensures
        0 <= place_of(entries, token) <= entries.len(),
        forall|i: int|
            0 <= i < place_of(entries, token) ==> rank(#[trigger] entries[i].0) < rank(token),
        forall|i: int|
            place_of(entries, token) <= i < entries.len() ==> rank(#[trigger] entries[i].0)
                >= rank(token),
    decreases entries.len(),
{
    if entries.len() == 0 {
    } else if rank(entries.last().0) < rank(token) {
        assert forall|i: int| 0 <= i < entries.len() implies rank(#[trigger] entries[i].0) < rank(
            token,
        ) by {
            if i < entries.len() - 1 {
                assert(rank(entries[i].0) < rank(entries[entries.len() - 1].0));
            }
        }
    } else {
        let front = entries.drop_last();
        assert forall|i: int, j: int| 0 <= i < j < front.len() implies rank(
            #[trigger] front[i].0,
        ) < rank(#[trigger] front[j].0) by {
            assert(front[i] == entries[i] && front[j] == entries[j]);
        }
        lemma_place_of(front, token);
        assert forall|i: int| place_of(entries, token) <= i < entries.len() implies rank(
            #[trigger] entries[i].0,
        ) >= rank(token) by {
            if i < front.len() {
                assert(front[i] == entries[i]);
            }
        }
        assert forall|i: int| 0 <= i < place_of(entries, token) implies rank(
            #[trigger] entries[i].0,
        ) < rank(token) by {
            assert(front[i] == entries[i]);
        }
    }
}

/// The one index `p` that parts the addresses before `token` from the others
/// is the place of `token`.
pub proof fn lemma_place_is(entries: Seq<(Address, U256)>, token: Address, p: int)
    requires
        ascending(entries),
        0 <= p <= entries.len(),
        forall|i: int| 0 <= i < p ==> rank(#[trigger] entries[i].0) < rank(token),
        forall|i: int| p <= i < entries.len() ==> rank(#[trigger] entries[i].0) >= rank(token),
    ensures
        place_of(entries, token) == p,
{
    lemma_place_of(entries, token);
    let q = place_of(entries, token);
    if q < p {
        assert(rank(entries[q].0) < rank(token));
    } else if p < q {
        assert(rank(entries[p].0) >= rank(token));
    }
}

/// Setting a price keeps the entries ascending, makes `token` have that
/// price, and leaves the price of every other token as it was.
pub proof fn lemma_with_price(
    entries: Seq<(Address, U256)>,
    token: Address,
    price: U256,
    other: Address,
)
    requires
        ascending(entries),
    ensures
        ascending(with_price(entries, token, price)),
        price_of(with_price(entries, token, price), token) == Some(price),
        other != token ==> price_of(with_price(entries, token, price), other) == price_of(
            entries,
            other,
        ),
{
    lemma_place_of(entries, token);
    lemma_rank_injective(token, other);
    let p = place_of(entries, token);
    let after = with_price(entries, token, price);
    let replaced = p < entries.len() && entries[p].0 == token;
    if !replaced && p < entries.len() {
        lemma_rank_injective(entries[p].0, token);
    }
    assert(ascending(after)) by {
        assert forall|i: int, j: int| 0 <= i < j < after.len() implies rank(
            #[trigger] after[i].0,
        ) < rank(#[trigger] after[j].0) by {
            if replaced {
                assert(after[i].0 == entries[i].0 && after[j].0 == entries[j].0);
            } else {
                let oi = if i < p { i } else { i - 1 };
                let oj = if j < p { j } else { j - 1 };
                if i != p {
                    assert(after[i] == entries[oi]);
                }
                if j != p {
                    assert(after[j] == entries[oj]);
                }
            }
        }
    }
    {
        assert forall|i: int| 0 <= i < p implies rank(#[trigger] after[i].0) < rank(token) by {
            assert(after[i] == entries[i]);
        }
        assert forall|i: int| p <= i < after.len() implies rank(#[trigger] after[i].0) >= rank(
            token,
        ) by {
            if i > p {
                if replaced {
                    assert(after[i] == entries[i]);
                } else {
                    assert(after[i] == entries[i - 1]);
                }
            }
        }
            lemma_place_is(after, token, p);
    }
    if other != token {
        lemma_place_of(entries, other);
        let q = place_of(entries, other);
        let shift = if !replaced && rank(other) > rank(token) { q + 1 } else { q };
        {
            assert forall|i: int| 0 <= i < shift implies rank(#[trigger] after[i].0) < rank(
                other,
            ) by {
                if replaced {
                    if i != p {
                        assert(after[i] == entries[i]);
                    }
                } else if i < p {
                    assert(after[i] == entries[i]);
                } else if i > p {
                    assert(after[i] == entries[i - 1]);
                }
            }
            assert forall|i: int| shift <= i < after.len() implies rank(#[trigger] after[i].0)
                >= rank(other) by {
                if replaced {
                    if i != p {
                        assert(after[i] == entries[i]);
                    }
                } else if i < p {
                    assert(after[i] == entries[i]);
                } else if i > p {
                    assert(after[i] == entries[i - 1]);
                }
            }
                    lemma_place_is(after, other, shift);
        }
        if replaced {
            if shift < after.len() && shift != p {
                assert(after[shift] == entries[shift]);
            }
        } else if shift < after.len() {
            if shift < p {
                assert(after[shift] == entries[shift]);
            } else if shift > p {
                assert(after[shift] == entries[shift - 1]);
            }
        }
    }
}

/// Two addresses with the same place in the order are the same address.
pub proof fn lemma_rank_injective(a: Address, b: Address)
    ensures
        rank(a) == rank(b) <==> a == b,
{
    lemma_be_value_injective(a.0@, b.0@);
    if a.0@ == b.0@ {
        assert(a.0 =~= b.0);
    }
}

impl PriceMap {
    /// The entries are in ascending order of their addresses.
    pub open spec fn wf(&self) -> bool {
        ascending(self.entries@)
    }

    /// A map without entries.
    pub fn new() -> (r: Self)
        ensures
            r.wf(),
            r.entries@.len() == 0,
    {
        PriceMap { entries: Vec::new() }
    }

    /// Whether the entries are in ascending order of their addresses.
    pub fn is_well_formed(&self) -> (r: bool)
        ensures
            r == self.wf(),
    {
        let mut i: usize = 1;
        while i < self.entries.len()
            invariant
                1 <= i,
                forall|a: int, b: int|
                    0 <= a < b < i && b < self.entries@.len() ==> rank(
                        #[trigger] self.entries@[a].0,
                    ) < rank(#[trigger] self.entries@[b].0),
            decreases self.entries@.len() - i,
        {
            match self.entries[i - 1].0.order(&self.entries[i].0) {
                KeyOrder::Before => {},
                _ => {
                    assert(!(rank(self.entries@[i - 1].0) < rank(self.entries@[i as int].0)));
                    return false;
                },
            }
            proof {
                assert forall|a: int| 0 <= a < i implies rank(#[trigger] self.entries@[a].0)
                    < rank(self.entries@[i as int].0) by {
                    if a < i - 1 {
                        assert(rank(self.entries@[a].0) < rank(self.entries@[i - 1].0));
                    }
                }
            }
            i += 1;
        }
        true
    }

    /// The number of tokens that have a price.
    pub fn len(&self) -> (n: usize)
        ensures
            n == self.entries@.len(),
    {
        self.entries.len()
    }

    /// The place where an entry for `token` stands or would stand.
    fn place(&self, token: &Address) -> (p: usize)
        requires
            self.wf(),
        ensures
            p == place_of(self.entries@, *token),
            p <= self.entries@.len(),
    {
        let mut p: usize = 0;
        while p < self.entries.len()
            invariant
                self.wf(),
                p <= self.entries@.len(),
                forall|i: int| 0 <= i < p ==> rank(#[trigger] self.entries@[i].0) < rank(*token),
            decreases self.entries@.len() - p,
        {
            match self.entries[p].0.order(token) {
                KeyOrder::Before => {
                    p += 1;
                },
                _ => {
                    proof {
                        assert forall|i: int| p <= i < self.entries@.len() implies rank(
                            #[trigger] self.entries@[i].0,
                        ) >= rank(*token) by {
                            if i > p {
                                assert(rank(self.entries@[p as int].0) < rank(
                                    self.entries@[i].0,
                                ));
                            }
                        }
                        lemma_place_is(self.entries@, *token, p as int);
                    }
                    return p;
                },
            }
        }
        proof {
            lemma_place_is(self.entries@, *token, p as int);
        }
        p
    }

    /// The price of `token`, if the map has one.
    pub fn get(&self, token: &Address) -> (r: Option<U256>)
        requires
            self.wf(),
        ensures
            r == price_of(self.entries@, *token),
    {
        let p = self.place(token);
        if p < self.entries.len() {
            match self.entries[p].0.order(token) {
                KeyOrder::Same => Some(self.entries[p].1),
                _ => None,
            }
        } else {
            None
        }
    }

    /// Sets the price of `token`, in place of the one it had if it had one.
    pub fn insert(&mut self, token: Address, price: U256)
        requires
            old(self).wf(),
        ensures
            final(self).wf(),
            final(self).entries@ == with_price(old(self).entries@, token, price),
    {
        let p = self.place(&token);
        proof {
            lemma_with_price(self.entries@, token, price, token);
        }
        let found = if p < self.entries.len() {
            match self.entries[p].0.order(&token) {
                KeyOrder::Same => true,
                _ => false,
            }
        } else {
            false
        };
        if found {
            self.entries.set(p, (token, price));
        } else {
            self.entries.insert(p, (token, price));
        }
    }
}

} // verus!
