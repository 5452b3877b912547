use vstd::prelude::*;

use std::collections::HashMap;

use crate::types::GridCell;
use vstd::std_specs::iter::IteratorSpec;

verus! {

broadcast use vstd::std_specs::hash::group_hash_axioms;

/// No key occurs twice in a table of entries.
pub open spec fn keys_unique<V>(entries: Seq<(GridCell, V)>) -> bool {
    forall|i: int, j: int|
        0 <= i < entries.len() && 0 <= j < entries.len() && i != j ==> entries[i].0
            != entries[j].0
}

/// The map that a table of entries with unique keys stands for.
pub open spec fn table_map<V>(entries: Seq<(GridCell, V)>) -> Map<GridCell, V> {
    Map::new(
        |cell: GridCell| exists|i: int| 0 <= i < entries.len() && entries[i].0 == cell,
        |cell: GridCell|
            entries[choose|i: int| 0 <= i < entries.len() && entries[i].0 == cell].1,
    )
}

/// An entry of a table with unique keys is what the table maps its cell to.
pub proof fn lemma_table_lookup<V>(entries: Seq<(GridCell, V)>, i: int)
    requires
        keys_unique(entries),
        0 <= i < entries.len(),
    ensures
        table_map(entries).dom().contains(entries[i].0),
        table_map(entries)[entries[i].0] == entries[i].1,
{
    let cell = entries[i].0;
    assert(exists|k: int| 0 <= k < entries.len() && entries[k].0 == cell);
    let j = choose|k: int| 0 <= k < entries.len() && entries[k].0 == cell;
    assert(j == i);
}

/// Whether one of the first `count` entries holds `cell` with a value that fails `pred`.
pub open spec fn dropped_before<V>(entries: Seq<(GridCell, V)>, count: int, pred: spec_fn(V) -> bool, cell: GridCell) -> bool {
    exists|k: int| 0 <= k < count && entries[k].0 == cell && !pred(entries[k].1)
}

/// Two to the 32nd: the span of one `i32` coordinate once shifted to be non-negative.
pub open spec fn coordinate_span() -> int {
    0x1_0000_0000
}

/// The hash key of a cell: its coordinates shifted to be non-negative, `x` in the
/// high half of the `u64` and `y` in the low half.
pub open spec fn cell_key(cell: GridCell) -> u64 {
    ((cell.x as int + 0x8000_0000) * coordinate_span() + (cell.y as int + 0x8000_0000)) as u64
}

/// The cell whose hash key is `key`.
pub open spec fn key_cell(key: u64) -> GridCell {
    GridCell {
        x: (key as int / coordinate_span() - 0x8000_0000) as i32,
        y: (key as int % coordinate_span() - 0x8000_0000) as i32,
    }
}

/// Every cell has its own key, and every key names exactly one cell.
proof fn lemma_cell_key_round_trip(cell: GridCell, key: u64)
    ensures
        key_cell(cell_key(cell)) == cell,
        cell_key(key_cell(key)) == key,
        cell_key(cell) == key <==> cell == key_cell(key),
{
    let high = cell.x as int + 0x8000_0000;
    let low = cell.y as int + 0x8000_0000;
    assert(0 <= high * coordinate_span() + low <= u64::MAX) by (nonlinear_arith)
        requires
            0 <= high < coordinate_span(),
            0 <= low < coordinate_span(),
            coordinate_span() == 0x1_0000_0000,
    ;
    vstd::arithmetic::div_mod::lemma_fundamental_div_mod_converse(
        high * coordinate_span() + low,
        coordinate_span(),
        high,
        low,
    );
    let k = key as int;
    vstd::arithmetic::div_mod::lemma_fundamental_div_mod(k, coordinate_span());
    let q = k / coordinate_span();
    let r = k % coordinate_span();
    assert(0 <= q < coordinate_span()) by (nonlinear_arith)
        requires
            0 <= k <= u64::MAX,
            k == coordinate_span() * q + r,
            0 <= r < coordinate_span(),
            coordinate_span() == 0x1_0000_0000,
    ;
}

fn key_of(cell: GridCell) -> (key: u64)
    ensures
        key == cell_key(cell),
{
    let high: u64 = (cell.x as i64 + 0x8000_0000) as u64;
    let low: u64 = (cell.y as i64 + 0x8000_0000) as u64;
    assert(high * 0x1_0000_0000 + low <= u64::MAX) by (nonlinear_arith)
        requires
            high < 0x1_0000_0000,
            low < 0x1_0000_0000,
    ;
    high * 0x1_0000_0000 + low
}

fn cell_of(key: u64) -> (cell: GridCell)
    ensures
        cell == key_cell(key),
{
    let high: u64 = key / 0x1_0000_0000;
    let low: u64 = key % 0x1_0000_0000;
    GridCell { x: (high as i64 - 0x8000_0000) as i32, y: (low as i64 - 0x8000_0000) as i32 }
}

/// A map from grid cells to values, held in a hash map keyed by `cell_key`.
pub struct CellTable<V> {
    map: HashMap<u64, V>,
}

impl<V> CellTable<V> {
    pub closed spec fn view(&self) -> Map<GridCell, V> {
        Map::new(|cell: GridCell| self.map@.contains_key(cell_key(cell)), |cell: GridCell| self.map@[cell_key(cell)])
    }

    /// The cells of the table are the cells of the hash map's keys.
    proof fn lemma_dom(&self)
        ensures
            self.view().dom() == self.map@.dom().map(|key: u64| key_cell(key)),
            self.view().dom().finite(),
            self.view().dom().len() == self.map@.dom().len(),
    {
        let f = |key: u64| key_cell(key);
        let image = self.map@.dom().map(f);
        assert forall|cell: GridCell| #[trigger] self.view().dom().contains(cell) == image.contains(cell) by {
            lemma_cell_key_round_trip(cell, cell_key(cell));
            if image.contains(cell) {
                let key = choose|key: u64| self.map@.dom().contains(key) && f(key) == cell;
                lemma_cell_key_round_trip(cell, key);
            }
            if self.view().dom().contains(cell) {
                assert(self.map@.dom().contains(cell_key(cell)) && f(cell_key(cell)) == cell);
            }
        }
        assert(self.view().dom() =~= image);
        assert(vstd::relations::injective_on(f, self.map@.dom())) by {
            assert forall|a: u64, b: u64|
                self.map@.dom().contains(a) && self.map@.dom().contains(b) && #[trigger] f(a) == #[trigger] f(b)
                    implies a == b by {
                lemma_cell_key_round_trip(f(a), a);
                lemma_cell_key_round_trip(f(b), b);
            }
        }
        vstd::set_lib::lemma_map_size(self.map@.dom(), image, f);
    }
}

impl<V: Copy> CellTable<V> {
    pub fn new() -> (table: CellTable<V>)
        ensures
            table.view() == Map::<GridCell, V>::empty(),
    {
        let table = CellTable { map: HashMap::new() };
        assert(table.view() =~= Map::<GridCell, V>::empty());
        table
    }

    pub fn len(&self) -> (count: usize)
        ensures
            count == self.view().dom().len(),
            self.view().dom().finite(),
    {
        proof {
            self.lemma_dom();
        }
        self.map.len()
    }

    pub fn get(&self, cell: GridCell) -> (value: Option<V>)
        ensures
            value == (if self.view().dom().contains(cell) {
                Some(self.view()[cell])
            } else {
                None
            }),
    {
        let key = key_of(cell);
        match self.map.get(&key) {
            Some(value) => Some(*value),
            None => None,
        }
    }

    pub fn contains(&self, cell: GridCell) -> (found: bool)
        ensures
            found == self.view().dom().contains(cell),
    {
        self.get(cell).is_some()
    }

    /// The entries of the table, in the hash map's order.
    pub fn entries(&self) -> (entries: Vec<(GridCell, V)>)
        ensures
            keys_unique(entries@),
            table_map(entries@) == self.view(),
    {
        let ghost pairs = vstd::std_specs::hash::spec_hash_map_iter(&self.map).remaining();
        let mut entries: Vec<(GridCell, V)> = Vec::new();
        for (key, value) in it: self.map.iter()
            invariant
                it.seq() == pairs,
                pairs == vstd::std_specs::hash::spec_hash_map_iter(&self.map).remaining(),
                entries@.len() == it.index(),
                forall|i: int| 0 <= i < entries@.len() ==> #[trigger] entries@[i] == (key_cell(*pairs[i].0), *pairs[i].1),
        {
            entries.push((cell_of(*key), *value));
        }
        proof {
            let m = self.map@;
            assert(entries@.len() == pairs.len());
            assert forall|i: int| 0 <= i < pairs.len() implies m.contains_key(*pairs[i].0) && m[*pairs[i].0]
                == *pairs[i].1 by {
                assert(m.contains_key(*pairs[i].0));
            }
            assert forall|i: int, j: int|
                0 <= i < entries@.len() && 0 <= j < entries@.len() && i != j implies entries@[i].0 != entries@[j].0 by {
                assert(entries@[i] == (key_cell(*pairs[i].0), *pairs[i].1));
                assert(entries@[j] == (key_cell(*pairs[j].0), *pairs[j].1));
                assert(m.contains_key(*pairs[i].0));
                assert(m.contains_key(*pairs[j].0));
                lemma_cell_key_round_trip(key_cell(*pairs[i].0), *pairs[i].0);
                lemma_cell_key_round_trip(key_cell(*pairs[j].0), *pairs[j].0);
                if *pairs[i].0 == *pairs[j].0 {
                    assert(pairs[i] == pairs[j]);
                }
            }
            assert forall|cell: GridCell| #[trigger] table_map(entries@).dom().contains(cell) == self.view().dom().contains(cell) by {
                if self.view().dom().contains(cell) {
                    let key = cell_key(cell);
                    lemma_cell_key_round_trip(cell, key);
                    assert(pairs.contains((&key, &m[key])));
                    let i = choose|i: int| 0 <= i < pairs.len() && pairs[i] == (&key, &m[key]);
                    assert(entries@[i].0 == cell);
                }
                if table_map(entries@).dom().contains(cell) {
                    let i = choose|i: int| 0 <= i < entries@.len() && entries@[i].0 == cell;
                    assert(entries@[i] == (key_cell(*pairs[i].0), *pairs[i].1));
                    assert(m.contains_key(*pairs[i].0));
                    lemma_cell_key_round_trip(cell, *pairs[i].0);
                }
            }
            assert forall|cell: GridCell| #[trigger] table_map(entries@).dom().contains(cell) implies table_map(entries@)[cell]
                == self.view()[cell] by {
                let i = choose|i: int| 0 <= i < entries@.len() && entries@[i].0 == cell;
                lemma_table_lookup(entries@, i);
                assert(entries@[i] == (key_cell(*pairs[i].0), *pairs[i].1));
                assert(m.contains_key(*pairs[i].0));
                lemma_cell_key_round_trip(cell, *pairs[i].0);
            }
            assert(table_map(entries@) =~= self.view());
        }
        entries
    }

    /// Removes `cell` and its value, if present.
    pub fn remove(&mut self, cell: GridCell)
        ensures
            final(self).view() == old(self).view().remove(cell),
    {
        let key = key_of(cell);
        self.map.remove(&key);
        proof {
            assert forall|other: GridCell| #[trigger] self.view().dom().contains(other) == old(self).view().remove(
                cell,
            ).dom().contains(other) by {
                lemma_cell_key_round_trip(other, cell_key(cell));
                lemma_cell_key_round_trip(cell, cell_key(other));
            }
            assert forall|other: GridCell| #[trigger] self.view().dom().contains(other) implies self.view()[other]
                == old(self).view().remove(cell)[other] by {
                lemma_cell_key_round_trip(other, cell_key(cell));
            }
            assert(self.view() =~= old(self).view().remove(cell));
        }
    }

    /// Keeps only the entries whose value satisfies `keep`.
    pub fn retain(&mut self, keep: impl Fn(V) -> bool, Ghost(pred): Ghost<spec_fn(V) -> bool>)
        requires
            forall|v: V| #[trigger] keep.requires((v,)),
            forall|v: V, r: bool| keep.ensures((v,), r) ==> r == pred(v),
        ensures
            final(self).view() == Map::new(
                |cell: GridCell| old(self).view().dom().contains(cell) && pred(old(self).view()[cell]),
                |cell: GridCell| old(self).view()[cell],
            ),
    {
        let ghost before = self.view();
        let entries = self.entries();
        let mut index: usize = 0;
        while index < entries.len()
            invariant
                0 <= index <= entries@.len(),
                keys_unique(entries@),
                table_map(entries@) == before,
                forall|v: V| #[trigger] keep.requires((v,)),
                forall|v: V, r: bool| keep.ensures((v,), r) ==> r == pred(v),
                self.view() == Map::new(
                    |cell: GridCell| before.dom().contains(cell) && !dropped_before(entries@, index as int, pred, cell),
                    |cell: GridCell| before[cell],
                ),
            decreases entries@.len() - index,
        {
            let (cell, value) = entries[index];
            proof {
                lemma_table_lookup(entries@, index as int);
            }
            let kept = keep(value);
            let ghost shown = self.view();
            if !kept {
                self.remove(cell);
            }
            proof {
                let next = Map::new(
                    |c: GridCell| before.dom().contains(c) && !dropped_before(entries@, index + 1, pred, c),
                    |c: GridCell| before[c],
                );
                assert forall|c: GridCell| #[trigger] self.view().dom().contains(c) == next.dom().contains(c) by {
                    if dropped_before(entries@, index + 1, pred, c) && !dropped_before(entries@, index as int, pred, c) {
                        let k = choose|k: int| 0 <= k < index + 1 && entries@[k].0 == c && !pred(entries@[k].1);
                        assert(k == index);
                    }
                    if dropped_before(entries@, index as int, pred, c) {
                        let k = choose|k: int| 0 <= k < index && entries@[k].0 == c && !pred(entries@[k].1);
                        assert(dropped_before(entries@, index + 1, pred, c));
                    }
                    if c == cell && !kept {
                        assert(dropped_before(entries@, index + 1, pred, c));
                    }
                }
                assert(self.view() =~= next);
            }
            index = index + 1;
        }
        proof {
            let target = Map::new(
                |cell: GridCell| before.dom().contains(cell) && pred(before[cell]),
                |cell: GridCell| before[cell],
            );
            assert forall|c: GridCell| #[trigger] self.view().dom().contains(c) == target.dom().contains(c) by {
                if dropped_before(entries@, index as int, pred, c) {
                    let k = choose|k: int| 0 <= k < index && entries@[k].0 == c && !pred(entries@[k].1);
                    lemma_table_lookup(entries@, k);
                }
                if before.dom().contains(c) && !pred(before[c]) {
                    let k = choose|k: int| 0 <= k < entries@.len() && entries@[k].0 == c;
                    lemma_table_lookup(entries@, k);
                    assert(dropped_before(entries@, index as int, pred, c));
                }
            }
            assert(self.view() =~= target);
        }
    }

    /// Sets the value of `cell`, replacing any earlier value.
    pub fn insert(&mut self, cell: GridCell, value: V)
        ensures
            final(self).view() == old(self).view().insert(cell, value),
    {
        let key = key_of(cell);
        self.map.insert(key, value);
        proof {
            assert forall|other: GridCell| #[trigger] self.view().dom().contains(other) == old(self).view().insert(
                cell,
                value,
            ).dom().contains(other) by {
                lemma_cell_key_round_trip(other, cell_key(cell));
                lemma_cell_key_round_trip(cell, cell_key(other));
            }
            assert forall|other: GridCell| #[trigger] self.view().dom().contains(other) implies self.view()[other]
                == old(self).view().insert(cell, value)[other] by {
                lemma_cell_key_round_trip(other, cell_key(cell));
                lemma_cell_key_round_trip(cell, cell_key(other));
            }
            assert(self.view() =~= old(self).view().insert(cell, value));
        }
    }
}

} // verus!
