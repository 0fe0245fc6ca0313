use vstd::prelude::*;
use crate::address::Address;
use crate::token::Token;
use crate::token_id::{IdView, TokenId};

verus! {

/// One (chain, identifier) -> token slot.
#[derive(Debug)]
pub struct Slot {
    pub chain_id: u64,
    pub id: TokenId,
    pub token: Token,
}

/// The key of a slot, as a value.
pub open spec fn slot_key(s: Slot) -> (u64, IdView) {
    (s.chain_id, s.id@)
}

/// Whether a chain passes an optional chain filter.
pub open spec fn chain_passes(filter: Option<u64>, chain_id: u64) -> bool {
    match filter {
        Some(c) => c == chain_id,
        None => true,
    }
}

/// Whether `m` has a slot for identifier `id` on some chain that passes `filter`.
pub open spec fn listed(m: Map<(u64, IdView), Token>, filter: Option<u64>, id: IdView) -> bool {
    exists|c: u64| chain_passes(filter, c) && #[trigger] m.contains_key((c, id))
}

/// `chains` pairs each of `ids` with a chain so that the pairs are exactly the
/// keys of `m` that pass `filter` and are symbol keys (`symbols`) or address
/// keys (`!symbols`), each key once.
pub open spec fn enumerated_by(
    m: Map<(u64, IdView), Token>,
    filter: Option<u64>,
    symbols: bool,
    ids: Seq<IdView>,
    chains: Seq<u64>,
) -> bool {
    &&& chains.len() == ids.len()
    &&& forall|i: int|
        #![trigger ids[i]]
        0 <= i < ids.len() ==> chain_passes(filter, chains[i]) && (ids[i] is Symbol) == symbols
            && m.contains_key((chains[i], ids[i]))
    &&& forall|i: int, j: int|
        #![trigger ids[i], ids[j]]
        0 <= i < j < ids.len() ==> (chains[i], ids[i]) != (chains[j], ids[j])
    &&& forall|k: (u64, IdView)|
        #[trigger] m.contains_key(k) && chain_passes(filter, k.0) && (k.1 is Symbol) == symbols
            ==> exists|i: int| #![trigger ids[i]] 0 <= i < ids.len() && chains[i] == k.0 && ids[i] == k.1
}

/// `ids` lists the symbol (or address) keys of `m` that pass `filter`, one
/// entry per (chain, key) slot.
pub open spec fn enumerates(m: Map<(u64, IdView), Token>, filter: Option<u64>, symbols: bool, ids: Seq<IdView>) -> bool {
    exists|chains: Seq<u64>| enumerated_by(m, filter, symbols, ids, chains)
}

/// The slots of `m` whose token is not the one anchored at `(chain_id, anchor)`,
/// that is, whose chain differs or whose token has another address.
pub open spec fn drop_anchored(
    m: Map<(u64, IdView), Token>,
    chain_id: u64,
    anchor: [u8; 20],
) -> Map<(u64, IdView), Token> {
    Map::new(
        |k: (u64, IdView)| m.contains_key(k) && !(k.0 == chain_id && m[k].address.bytes == anchor),
        |k: (u64, IdView)| m[k],
    )
}

/// No two slots of the sequence share a key.
pub open spec fn keys_unique(slots: Seq<Slot>) -> bool {
    forall|i: int, j: int|
        0 <= i < j < slots.len() ==> slot_key(#[trigger] slots[i]) != slot_key(#[trigger] slots[j])
}

/// Whether some slot of the sequence has the key.
pub open spec fn has_key(slots: Seq<Slot>, k: (u64, IdView)) -> bool {
    exists|i: int| 0 <= i < slots.len() && slot_key(#[trigger] slots[i]) == k
}

/// The map that a sequence of slots with unique keys stands for.
pub open spec fn map_of(slots: Seq<Slot>) -> Map<(u64, IdView), Token> {
    Map::new(
        |k: (u64, IdView)| has_key(slots, k),
        |k: (u64, IdView)|
            slots[choose|i: int| 0 <= i < slots.len() && slot_key(#[trigger] slots[i]) == k].token,
    )
}

proof fn lemma_slot_in_map(slots: Seq<Slot>, i: int)
    requires
        keys_unique(slots),
        0 <= i < slots.len(),
    ensures
        map_of(slots).contains_key(slot_key(slots[i])),
        map_of(slots)[slot_key(slots[i])] == slots[i].token,
{
    let k = slot_key(slots[i]);
    assert(has_key(slots, k));
    let j = choose|j: int| 0 <= j < slots.len() && slot_key(#[trigger] slots[j]) == k;
    if j < i {
        assert(slot_key(slots[j]) != slot_key(slots[i]));
    } else if i < j {
        assert(slot_key(slots[i]) != slot_key(slots[j]));
    }
}

/// A finite map from (chain, identifier) to token, one slot per key.
#[derive(Debug)]
pub struct SlotTable {
    slots: Vec<Slot>,
}

impl SlotTable {
    /// No two slots share a key.
    pub closed spec fn well_formed(&self) -> bool {
        keys_unique(self.slots@)
    }

    /// The table as a map.
    pub closed spec fn view(&self) -> Map<(u64, IdView), Token> {
        map_of(self.slots@)
    }

    proof fn lemma_slot_in_view(&self, i: int)
        requires
            self.well_formed(),
            0 <= i < self.slots@.len(),
        ensures
            self.view().contains_key(slot_key(self.slots@[i])),
            self.view()[slot_key(self.slots@[i])] == self.slots@[i].token,
    {
        lemma_slot_in_map(self.slots@, i);
    }

    /// An empty table.
    pub fn new() -> (r: SlotTable)
        ensures
            r.well_formed(),
            r.view() == Map::<(u64, IdView), Token>::empty(),
    {
        let r = SlotTable { slots: Vec::new() };
        assert(r.view() =~= Map::<(u64, IdView), Token>::empty());
        r
    }

    /// The position of the slot with the given key.
    fn find(&self, chain_id: u64, id: &TokenId) -> (r: Option<usize>)
        requires
            self.well_formed(),
        ensures
            match r {
                Some(i) => i < self.slots@.len() && slot_key(self.slots@[i as int]) == (chain_id, id@),
                None => !self.view().contains_key((chain_id, id@)),
            },
    {
        let mut i: usize = 0;
        while i < self.slots.len()
            invariant
                0 <= i <= self.slots@.len(),
                forall|j: int| 0 <= j < i ==> slot_key(#[trigger] self.slots@[j]) != (chain_id, id@),
            decreases self.slots@.len() - i,
        {
            let s = &self.slots[i];
            if s.chain_id == chain_id && s.id.same_as(id) {
                return Some(i);
            }
            i = i + 1;
        }
        None
    }

    /// Whether a slot has the given key.
    pub fn contains(&self, chain_id: u64, id: &TokenId) -> (r: bool)
        requires
            self.well_formed(),
        ensures
            r == self.view().contains_key((chain_id, id@)),
    {
        match self.find(chain_id, id) {
            Some(i) => {
                proof {
                    self.lemma_slot_in_view(i as int);
                }
                true
            },
            None => false,
        }
    }

    /// The token in the slot with the given key.
    pub fn get(&self, chain_id: u64, id: &TokenId) -> (r: Option<&Token>)
        requires
            self.well_formed(),
        ensures
            r.is_some() == self.view().contains_key((chain_id, id@)),
            r.is_some() ==> *r.unwrap() == self.view()[(chain_id, id@)],
    {
        match self.find(chain_id, id) {
            Some(i) => {
                proof {
                    self.lemma_slot_in_view(i as int);
                }
                Some(&self.slots[i].token)
            },
            None => None,
        }
    }

    /// Writes `token` into the slot with the given key, adding the slot if it is new.
    pub fn upsert(&mut self, chain_id: u64, id: TokenId, token: Token)
        requires
            old(self).well_formed(),
        ensures
            final(self).well_formed(),
            final(self).view() == old(self).view().insert((chain_id, id@), token),
    {
        let ghost before = self.slots@;
        let ghost k = (chain_id, id@);
        let found = self.find(chain_id, &id);
        let slot = Slot { chain_id, id, token };
        match found {
            Some(i) => {
                self.slots.set(i, slot);
                proof {
                    let after = self.slots@;
                    assert forall|a: int, b: int| 0 <= a < b < after.len() implies slot_key(
                        #[trigger] after[a],
                    ) != slot_key(#[trigger] after[b]) by {
                        assert(slot_key(after[a]) == slot_key(before[a]));
                        assert(slot_key(after[b]) == slot_key(before[b]));
                    }
                    assert forall|k2: (u64, IdView)| has_key(after, k2) == has_key(before, k2) by {
                        if has_key(after, k2) {
                            let j = choose|j: int| 0 <= j < after.len() && slot_key(#[trigger] after[j]) == k2;
                            assert(slot_key(before[j]) == k2);
                        }
                        if has_key(before, k2) {
                            let j = choose|j: int| 0 <= j < before.len() && slot_key(#[trigger] before[j]) == k2;
                            assert(slot_key(after[j]) == k2);
                        }
                    }
                    assert forall|k2: (u64, IdView)| #[trigger] map_of(after).contains_key(k2) implies map_of(after)[k2]
                        == map_of(before).insert(k, token)[k2] by {
                        let j = choose|j: int| 0 <= j < after.len() && slot_key(#[trigger] after[j]) == k2;
                        lemma_slot_in_map(after, j);
                        if j != i {
                            lemma_slot_in_map(before, j);
                        }
                    }
                    assert(map_of(after) =~= map_of(before).insert(k, token));
                }
            },
            None => {
                self.slots.push(slot);
                proof {
                    let after = self.slots@;
                    let n = before.len() as int;
                    assert forall|a: int, b: int| 0 <= a < b < after.len() implies slot_key(
                        #[trigger] after[a],
                    ) != slot_key(#[trigger] after[b]) by {
                        if b == n {
                            assert(slot_key(after[a]) == slot_key(before[a]));
                            if slot_key(before[a]) == k {
                                assert(has_key(before, k));
                            }
                        } else {
                            assert(slot_key(after[a]) == slot_key(before[a]));
                            assert(slot_key(after[b]) == slot_key(before[b]));
                        }
                    }
                    assert forall|k2: (u64, IdView)| has_key(after, k2) == (has_key(before, k2) || k2 == k) by {
                        if has_key(after, k2) {
                            let j = choose|j: int| 0 <= j < after.len() && slot_key(#[trigger] after[j]) == k2;
                            if j < n {
                                assert(slot_key(before[j]) == k2);
                            }
                        }
                        if has_key(before, k2) {
                            let j = choose|j: int| 0 <= j < before.len() && slot_key(#[trigger] before[j]) == k2;
                            assert(slot_key(after[j]) == k2);
                        }
                        if k2 == k {
                            assert(slot_key(after[n]) == k2);
                        }
                    }
                    assert forall|k2: (u64, IdView)| #[trigger] map_of(after).contains_key(k2) implies map_of(after)[k2]
                        == map_of(before).insert(k, token)[k2] by {
                        let j = choose|j: int| 0 <= j < after.len() && slot_key(#[trigger] after[j]) == k2;
                        lemma_slot_in_map(after, j);
                        if j != n {
                            lemma_slot_in_map(before, j);
                        }
                    }
                    assert(map_of(after) =~= map_of(before).insert(k, token));
                }
            },
        }
    }

    /// Removes every slot of chain `chain_id` whose token has address `anchor`.
    pub fn remove_anchored(&mut self, chain_id: u64, anchor: [u8; 20])
        requires
            old(self).well_formed(),
        ensures
            final(self).well_formed(),
            final(self).view() == drop_anchored(old(self).view(), chain_id, anchor),
    {
        let ghost before = self.slots@;
        let mut kept: Vec<Slot> = Vec::new();
        let ghost mut src: Seq<int> = Seq::empty();
        let mut old_slots: Vec<Slot> = Vec::new();
        core::mem::swap(&mut old_slots, &mut self.slots);
        assert(old_slots@ == before);
        let mut i: usize = 0;
        while i < old_slots.len()
            invariant
                old_slots@ == before,
                keys_unique(before),
                0 <= i <= before.len(),
                kept@.len() == src.len(),
                forall|j: int|
                    0 <= j < src.len() ==> 0 <= #[trigger] src[j] < i && kept@[j] == before[src[j]]
                        && !(before[src[j]].chain_id == chain_id && before[src[j]].token.address.bytes
                        == anchor),
                forall|a: int, b: int| 0 <= a < b < src.len() ==> #[trigger] src[a] < #[trigger] src[b],
                forall|m: int|
                    0 <= m < i && !(#[trigger] before[m].chain_id == chain_id
                        && before[m].token.address.bytes == anchor) ==> exists|j: int|
                        0 <= j < src.len() && #[trigger] src[j] == m,
            decreases before.len() - i,
        {
            let ghost src0 = src;
            let s = &old_slots[i];
            if !(s.chain_id == chain_id && s.token.address.same_as(&Address::new(anchor))) {
                let copy = Slot { chain_id: s.chain_id, id: s.id.duplicate(), token: s.token.duplicate() };
                kept.push(copy);
                proof {
                    src = src.push(i as int);
                    assert(src[src.len() - 1] == i as int);
                }
            }
            proof {
                assert forall|m: int|
                    0 <= m < i + 1 && !(#[trigger] before[m].chain_id == chain_id
                        && before[m].token.address.bytes == anchor) implies exists|j: int|
                    0 <= j < src.len() && #[trigger] src[j] == m by {
                    if m < i {
                        let j = choose|j: int| 0 <= j < src0.len() && #[trigger] src0[j] == m;
                        assert(src[j] == m);
                    } else {
                        assert(src[src.len() - 1] == m);
                    }
                }
            }
            i = i + 1;
        }
        self.slots = kept;
        proof {
            let after = self.slots@;
            assert forall|a: int, b: int| 0 <= a < b < after.len() implies slot_key(#[trigger] after[a])
                != slot_key(#[trigger] after[b]) by {
                assert(src[a] < src[b]);
                assert(after[a] == before[src[a]]);
                assert(after[b] == before[src[b]]);
            }
            let target = drop_anchored(map_of(before), chain_id, anchor);
            assert forall|k2: (u64, IdView)| has_key(after, k2) == target.contains_key(k2) by {
                if has_key(after, k2) {
                    let j = choose|j: int| 0 <= j < after.len() && slot_key(#[trigger] after[j]) == k2;
                    assert(after[j] == before[src[j]]);
                    lemma_slot_in_map(before, src[j]);
                }
                if target.contains_key(k2) {
                    let m = choose|m: int| 0 <= m < before.len() && slot_key(#[trigger] before[m]) == k2;
                    lemma_slot_in_map(before, m);
                    assert(!(before[m].chain_id == chain_id && before[m].token.address.bytes == anchor));
                    let j = choose|j: int| 0 <= j < src.len() && #[trigger] src[j] == m;
                    assert(slot_key(after[j]) == k2);
                }
            }
            assert forall|k2: (u64, IdView)| #[trigger] map_of(after).contains_key(k2) implies map_of(after)[k2]
                == target[k2] by {
                let j = choose|j: int| 0 <= j < after.len() && slot_key(#[trigger] after[j]) == k2;
                lemma_slot_in_map(after, j);
                assert(after[j] == before[src[j]]);
                lemma_slot_in_map(before, src[j]);
            }
            assert(map_of(after) =~= target);
        }
    }

    /// The symbols of the symbol slots whose chain passes `filter`.
    pub fn symbols(&self, filter: Option<u64>) -> (r: Vec<String>)
        requires
            self.well_formed(),
        ensures
            forall|j: int|
                0 <= j < r@.len() ==> listed(self.view(), filter, IdView::Symbol(#[trigger] (r@[j])@)),
            forall|c: u64, x: Seq<char>|
                chain_passes(filter, c) && #[trigger] self.view().contains_key((c, IdView::Symbol(x)))
                    ==> exists|j: int| 0 <= j < r@.len() && (#[trigger] r@[j])@ == x,
            enumerates(self.view(), filter, true, r@.map_values(|x: String| IdView::Symbol(x@))),
            filter is Some ==> forall|i: int, j: int|
                0 <= i < j < r@.len() ==> (#[trigger] r@[i])@ != (#[trigger] r@[j])@,
    {
        let mut r: Vec<String> = Vec::new();
        let ghost mut src: Seq<int> = Seq::empty();
        let mut i: usize = 0;
        while i < self.slots.len()
            invariant
                0 <= i <= self.slots@.len(),
                src.len() == r@.len(),
                forall|j: int|
                    0 <= j < src.len() ==> 0 <= #[trigger] src[j] < i && chain_passes(
                        filter,
                        self.slots@[src[j]].chain_id,
                    ) && self.slots@[src[j]].id@ == IdView::Symbol((r@[j])@),
                forall|a: int, b: int| 0 <= a < b < src.len() ==> #[trigger] src[a] < #[trigger] src[b],
                forall|m: int|
                    0 <= m < i && chain_passes(filter, #[trigger] self.slots@[m].chain_id) && (self.slots@[m].id@ is Symbol) == true
                        ==> exists|j: int| 0 <= j < src.len() && #[trigger] src[j] == m,
            decreases self.slots@.len() - i,
        {
            let ghost src0 = src;
            let s = &self.slots[i];
            let passes = match filter {
                Some(c) => s.chain_id == c,
                None => true,
            };
            if passes {
                match &s.id {
                    TokenId::Symbol(x) => {
                        r.push(x.clone());
                        proof {
                            src = src.push(i as int);
                        }
                    },
                    TokenId::Address(_) => {},
                }
            }
            proof {
                assert forall|m: int|
                    0 <= m < i + 1 && chain_passes(filter, #[trigger] self.slots@[m].chain_id) && (self.slots@[m].id@ is Symbol) == true
                        implies exists|j: int| 0 <= j < src.len() && #[trigger] src[j] == m by {
                    if m < i {
                        let j = choose|j: int| 0 <= j < src0.len() && #[trigger] src0[j] == m;
                        assert(src[j] == m);
                    } else {
                        assert(src[src.len() - 1] == m);
                    }
                }
            }
            i = i + 1;
        }
        proof {
            let ids = r@.map_values(|x: String| IdView::Symbol(x@));
            let chains = Seq::new(src.len(), |j: int| self.slots@[src[j]].chain_id);
            assert forall|j: int|
                0 <= j < r@.len() implies listed(self.view(), filter, IdView::Symbol(#[trigger] (r@[j])@)) by {
                let m = src[j];
                self.lemma_slot_in_view(m);
                assert(self.view().contains_key((self.slots@[m].chain_id, IdView::Symbol((r@[j])@))));
            }
            assert forall|i1: int|
                #![trigger ids[i1]]
                0 <= i1 < ids.len() implies chain_passes(filter, chains[i1]) && (ids[i1] is Symbol) == true
                    && self.view().contains_key((chains[i1], ids[i1])) by {
                self.lemma_slot_in_view(src[i1]);
            }
            assert forall|i1: int, j1: int|
                #![trigger ids[i1], ids[j1]]
                0 <= i1 < j1 < ids.len() implies (chains[i1], ids[i1]) != (chains[j1], ids[j1]) by {
                assert(src[i1] < src[j1]);
                assert(slot_key(self.slots@[src[i1]]) != slot_key(self.slots@[src[j1]]));
            }
            assert forall|k: (u64, IdView)|
                #[trigger] self.view().contains_key(k) && chain_passes(filter, k.0) && (k.1 is Symbol) == true
                    implies exists|i1: int| #![trigger ids[i1]] 0 <= i1 < ids.len() && chains[i1] == k.0 && ids[i1] == k.1 by {
                let m = choose|m: int| 0 <= m < self.slots@.len() && slot_key(#[trigger] self.slots@[m]) == k;
                assert(chain_passes(filter, self.slots@[m].chain_id));
                let j = choose|j: int| 0 <= j < src.len() && #[trigger] src[j] == m;
                assert(ids[j] == k.1);
            }
            assert(enumerated_by(self.view(), filter, true, ids, chains));
            assert forall|c: u64, x: Seq<char>|
                chain_passes(filter, c) && #[trigger] self.view().contains_key((c, IdView::Symbol(x)))
                    implies exists|j: int| 0 <= j < r@.len() && (#[trigger] r@[j])@ == x by {
                let k = (c, IdView::Symbol(x));
                let j = choose|j: int| #![trigger ids[j]] 0 <= j < ids.len() && chains[j] == k.0 && ids[j] == k.1;
                assert(ids[j] == IdView::Symbol((r@[j])@));
            }
            if filter is Some {
                assert forall|i1: int, j1: int|
                    0 <= i1 < j1 < r@.len() implies (#[trigger] r@[i1])@ != (#[trigger] r@[j1])@ by {
                    assert(ids[i1] == IdView::Symbol((r@[i1])@));
                    assert(ids[j1] == IdView::Symbol((r@[j1])@));
                    assert((chains[i1], ids[i1]) != (chains[j1], ids[j1]));
                }
            }
        }
        r
    }

    /// The addresses of the address slots whose chain passes `filter`.
    pub fn addresses(&self, filter: Option<u64>) -> (r: Vec<Address>)
        requires
            self.well_formed(),
        ensures
            forall|j: int|
                0 <= j < r@.len() ==> listed(self.view(), filter, IdView::Address(#[trigger] (r@[j]).bytes)),
            forall|c: u64, a: [u8; 20]|
                chain_passes(filter, c) && #[trigger] self.view().contains_key((c, IdView::Address(a)))
                    ==> exists|j: int| 0 <= j < r@.len() && (#[trigger] r@[j]).bytes == a,
            enumerates(self.view(), filter, false, r@.map_values(|x: Address| IdView::Address(x.bytes))),
            filter is Some ==> forall|i: int, j: int|
                0 <= i < j < r@.len() ==> (#[trigger] r@[i]).bytes != (#[trigger] r@[j]).bytes,
    {
        let mut r: Vec<Address> = Vec::new();
        let ghost mut src: Seq<int> = Seq::empty();
        let mut i: usize = 0;
        while i < self.slots.len()
            invariant
                0 <= i <= self.slots@.len(),
                src.len() == r@.len(),
                forall|j: int|
                    0 <= j < src.len() ==> 0 <= #[trigger] src[j] < i && chain_passes(
                        filter,
                        self.slots@[src[j]].chain_id,
                    ) && self.slots@[src[j]].id@ == IdView::Address((r@[j]).bytes),
                forall|a: int, b: int| 0 <= a < b < src.len() ==> #[trigger] src[a] < #[trigger] src[b],
                forall|m: int|
                    0 <= m < i && chain_passes(filter, #[trigger] self.slots@[m].chain_id) && (self.slots@[m].id@ is Symbol) == false
                        ==> exists|j: int| 0 <= j < src.len() && #[trigger] src[j] == m,
            decreases self.slots@.len() - i,
        {
            let ghost src0 = src;
            let s = &self.slots[i];
            let passes = match filter {
                Some(c) => s.chain_id == c,
                None => true,
            };
            if passes {
                match &s.id {
                    TokenId::Address(x) => {
                        r.push(*x);
                        proof {
                            src = src.push(i as int);
                        }
                    },
                    TokenId::Symbol(_) => {},
                }
            }
            proof {
                assert forall|m: int|
                    0 <= m < i + 1 && chain_passes(filter, #[trigger] self.slots@[m].chain_id) && (self.slots@[m].id@ is Symbol) == false
                        implies exists|j: int| 0 <= j < src.len() && #[trigger] src[j] == m by {
                    if m < i {
                        let j = choose|j: int| 0 <= j < src0.len() && #[trigger] src0[j] == m;
                        assert(src[j] == m);
                    } else {
                        assert(src[src.len() - 1] == m);
                    }
                }
            }
            i = i + 1;
        }
        proof {
            let ids = r@.map_values(|x: Address| IdView::Address(x.bytes));
            let chains = Seq::new(src.len(), |j: int| self.slots@[src[j]].chain_id);
            assert forall|j: int|
                0 <= j < r@.len() implies listed(self.view(), filter, IdView::Address(#[trigger] (r@[j]).bytes)) by {
                let m = src[j];
                self.lemma_slot_in_view(m);
                assert(self.view().contains_key((self.slots@[m].chain_id, IdView::Address((r@[j]).bytes))));
            }
            assert forall|i1: int|
                #![trigger ids[i1]]
                0 <= i1 < ids.len() implies chain_passes(filter, chains[i1]) && (ids[i1] is Symbol) == false
                    && self.view().contains_key((chains[i1], ids[i1])) by {
                self.lemma_slot_in_view(src[i1]);
            }
            assert forall|i1: int, j1: int|
                #![trigger ids[i1], ids[j1]]
                0 <= i1 < j1 < ids.len() implies (chains[i1], ids[i1]) != (chains[j1], ids[j1]) by {
                assert(src[i1] < src[j1]);
                assert(slot_key(self.slots@[src[i1]]) != slot_key(self.slots@[src[j1]]));
            }
            assert forall|k: (u64, IdView)|
                #[trigger] self.view().contains_key(k) && chain_passes(filter, k.0) && (k.1 is Symbol) == false
                    implies exists|i1: int| #![trigger ids[i1]] 0 <= i1 < ids.len() && chains[i1] == k.0 && ids[i1] == k.1 by {
                let m = choose|m: int| 0 <= m < self.slots@.len() && slot_key(#[trigger] self.slots@[m]) == k;
                assert(chain_passes(filter, self.slots@[m].chain_id));
                let j = choose|j: int| 0 <= j < src.len() && #[trigger] src[j] == m;
                assert(ids[j] == k.1);
            }
            assert(enumerated_by(self.view(), filter, false, ids, chains));
            assert forall|c: u64, a: [u8; 20]|
                chain_passes(filter, c) && #[trigger] self.view().contains_key((c, IdView::Address(a)))
                    implies exists|j: int| 0 <= j < r@.len() && (#[trigger] r@[j]).bytes == a by {
                let k = (c, IdView::Address(a));
                let j = choose|j: int| #![trigger ids[j]] 0 <= j < ids.len() && chains[j] == k.0 && ids[j] == k.1;
                assert(ids[j] == IdView::Address((r@[j]).bytes));
            }
            if filter is Some {
                assert forall|i1: int, j1: int|
                    0 <= i1 < j1 < r@.len() implies (#[trigger] r@[i1]).bytes != (#[trigger] r@[j1]).bytes by {
                    assert(ids[i1] == IdView::Address((r@[i1]).bytes));
                    assert(ids[j1] == IdView::Address((r@[j1]).bytes));
                    assert((chains[i1], ids[i1]) != (chains[j1], ids[j1]));
                }
            }
        }
        r
    }
}

} // verus!
