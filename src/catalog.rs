use vstd::prelude::*;
use crate::keys::strs;
use crate::symbol::{recs, Symbol, SymbolRec};

verus! {

/// The failures of the catalog's operations.
#[derive(Debug, Clone, Copy, PartialEq, Eq)]
pub enum CatalogError {
    /// A record with the same symbol is already stored.
    DuplicateKey,
    /// No record holds the requested symbol.
    NotFound,
    /// A search named an asset class label outside the fixed set.
    ConfigurationError,
}

/// A column of the catalog's table.
#[derive(Debug, Clone, Copy, PartialEq, Eq)]
pub enum Column {
    Symbol,
    Name,
    Category,
    AssetClass,
    Exchange,
}

/// The value that a record holds in a column.
pub open spec fn field_of(r: SymbolRec, c: Column) -> Seq<char> {
    match c {
        Column::Symbol => r.symbol,
        Column::Name => r.name,
        Column::Category => r.category,
        Column::AssetClass => r.asset_class,
        Column::Exchange => r.exchange,
    }
}

/// A filter: the record's value in `column` must be one of `values`.
pub struct Predicate {
    pub column: Column,
    pub values: Vec<String>,
}

impl View for Predicate {
    type V = (Column, Seq<Seq<char>>);

    open spec fn view(&self) -> (Column, Seq<Seq<char>>) {
        (self.column, strs(self.values@))
    }
}

/// The values of a list of predicates.
pub open spec fn preds_view(p: Seq<Predicate>) -> Seq<(Column, Seq<Seq<char>>)> {
    p.map_values(|q: Predicate| q@)
}

/// A record meets every predicate of the list.
pub open spec fn satisfies(r: SymbolRec, p: Seq<(Column, Seq<Seq<char>>)>) -> bool {
    forall|i: int| 0 <= i < p.len() ==> #[trigger] p[i].1.contains(field_of(r, p[i].0))
}

/// The records that meet every predicate, in their order.
pub open spec fn select(rows: Seq<SymbolRec>, p: Seq<(Column, Seq<Seq<char>>)>) -> Seq<SymbolRec>
    decreases rows.len(),
{
    if rows.len() == 0 {
        Seq::empty()
    } else {
        let rest = select(rows.drop_last(), p);
        if satisfies(rows.last(), p) {
            rest.push(rows.last())
        } else {
            rest
        }
    }
}

/// Some record holds the symbol `k`.
pub open spec fn has_key(rows: Seq<SymbolRec>, k: Seq<char>) -> bool {
    exists|i: int| 0 <= i < rows.len() && (#[trigger] rows[i]).symbol == k
}

/// No two records hold the same symbol.
pub open spec fn keys_unique(rows: Seq<SymbolRec>) -> bool {
    forall|i: int, j: int|
        0 <= i < j < rows.len() ==> (#[trigger] rows[i]).symbol != (#[trigger] rows[j]).symbol
}

/// The catalog: a table of records keyed by symbol, in insertion order.
pub struct Catalog {
    rows: Vec<Symbol>,
}

impl View for Catalog {
    type V = Seq<SymbolRec>;

    closed spec fn view(&self) -> Seq<SymbolRec> {
        recs(self.rows@)
    }
}

/// A vector holds `s` among its strings.
pub fn contains_str(v: &Vec<String>, s: &String) -> (r: bool)
    ensures
        r == strs(v@).contains(s@),
{
    let mut i: usize = 0;
    while i < v.len()
        invariant
            i <= v@.len(),
            forall|k: int| 0 <= k < i ==> v@[k]@ != s@,
        decreases v@.len() - i,
    {
        if v[i] == *s {
            proof {
                assert(strs(v@)[i as int] == s@);
            }
            return true;
        }
        i += 1;
    }
    proof {
        assert forall|k: int| 0 <= k < strs(v@).len() implies strs(v@)[k] != s@ by {
            assert(v@[k]@ != s@);
        }
    }
    false
}

/// The value that a record holds in a column.
pub fn field(s: &Symbol, c: Column) -> (r: &String)
    ensures
        r@ == field_of(s@, c),
{
    match c {
        Column::Symbol => &s.symbol,
        Column::Name => &s.name,
        Column::Category => &s.category,
        Column::AssetClass => &s.asset_class,
        Column::Exchange => &s.exchange,
    }
}

/// The record meets every predicate of the list.
pub fn matches_all(s: &Symbol, preds: &Vec<Predicate>) -> (r: bool)
    ensures
        r == satisfies(s@, preds_view(preds@)),
{
    let ghost p = preds_view(preds@);
    let mut i: usize = 0;
    while i < preds.len()
        invariant
            i <= preds@.len(),
            p == preds_view(preds@),
            forall|k: int| 0 <= k < i ==> #[trigger] p[k].1.contains(field_of(s@, p[k].0)),
        decreases preds@.len() - i,
    {
        let q = &preds[i];
        if !contains_str(&q.values, field(s, q.column)) {
            proof {
                assert(p[i as int] == q@);
                assert(!p[i as int].1.contains(field_of(s@, p[i as int].0)));
            }
            return false;
        }
        proof {
            assert(p[i as int] == q@);
        }
        i += 1;
    }
    true
}

impl Catalog {
    /// The catalog's records are well formed: symbols are unique.
    pub open spec fn wf(&self) -> bool {
        keys_unique(self@)
    }

    /// An empty catalog.
    pub fn new() -> (r: Catalog)
        ensures
            r@ == Seq::<SymbolRec>::empty(),
            r.wf(),
    {
        let r = Catalog { rows: Vec::new() };
        proof {
            assert(r@ =~= Seq::<SymbolRec>::empty());
        }
        r
    }

    /// The position of the record that holds `symbol`, if any.
    pub fn position(&self, symbol: &str) -> (r: Option<usize>)
        ensures
            match r {
                Some(i) => i < self@.len() && self@[i as int].symbol == symbol@,
                None => !has_key(self@, symbol@),
            },
    {
        let key = String::from_str(symbol);
        let mut i: usize = 0;
        while i < self.rows.len()
            invariant
                i <= self.rows@.len(),
                key@ == symbol@,
                self@ == recs(self.rows@),
                forall|k: int| 0 <= k < i ==> #[trigger] self@[k].symbol != symbol@,
            decreases self.rows@.len() - i,
        {
            if self.rows[i].symbol == key {
                proof {
                    assert(self@[i as int] == self.rows@[i as int]@);
                }
                return Some(i);
            }
            proof {
                assert(self@[i as int] == self.rows@[i as int]@);
            }
            i += 1;
        }
        None
    }

    /// Some record holds `symbol`.
    pub fn contains_symbol(&self, symbol: &str) -> (r: bool)
        ensures
            r == has_key(self@, symbol@),
    {
        self.position(symbol).is_some()
    }

    /// Adds a record, unless its symbol is already stored.
    pub fn insert(&mut self, rec: Symbol) -> (r: Result<(), CatalogError>)
        requires
            old(self).wf(),
        ensures
            final(self).wf(),
            has_key(old(self)@, rec.symbol@) ==> r == Err::<(), CatalogError>(
                CatalogError::DuplicateKey,
            ) && final(self)@ == old(self)@,
            !has_key(old(self)@, rec.symbol@) ==> r is Ok && final(self)@ == old(self)@.push(rec@),
    {
        if self.contains_symbol(rec.symbol.as_str()) {
            return Err(CatalogError::DuplicateKey);
        }
        let ghost before = self.rows@;
        self.rows.push(rec);
        proof {
            assert(self@ =~= recs(before).push(rec@));
            assert forall|i: int, j: int| 0 <= i < j < self@.len() implies
                (#[trigger] self@[i]).symbol != (#[trigger] self@[j]).symbol by {
                if j == self@.len() - 1 {
                    assert(recs(before)[i] == self@[i]);
                }
            }
        }
        Ok(())
    }

    /// The number of records.
    pub fn count_all(&self) -> (r: usize)
        ensures
            r == self@.len(),
    {
        self.rows.len()
    }

    /// The record at position `i`.
    pub fn row(&self, i: usize) -> (r: &Symbol)
        requires
            i < self@.len(),
        ensures
            r@ == self@[i as int],
    {
        &self.rows[i]
    }

    /// The records that meet every predicate, in insertion order; an empty
    /// list of predicates selects the whole table.
    pub fn query_all(&self, preds: &Vec<Predicate>) -> (r: Vec<Symbol>)
        ensures
            recs(r@) == select(self@, preds_view(preds@)),
    {
        let mut r: Vec<Symbol> = Vec::new();
        let mut i: usize = 0;
        while i < self.rows.len()
            invariant
                i <= self.rows@.len(),
                self@ == recs(self.rows@),
                recs(r@) == select(self@.subrange(0, i as int), preds_view(preds@)),
            decreases self.rows@.len() - i,
        {
            let ghost before = r@;
            let ghost pre = self@.subrange(0, i as int + 1);
            proof {
                assert(pre.drop_last() =~= self@.subrange(0, i as int));
                assert(pre.last() == self@[i as int]);
            }
            if matches_all(&self.rows[i], preds) {
                r.push(self.rows[i].duplicate());
                proof {
                    assert(recs(r@) =~= recs(before).push(self@[i as int]));
                }
            }
            i += 1;
        }
        proof {
            assert(self@.subrange(0, self@.len() as int) =~= self@);
        }
        r
    }

    /// The distinct values that the records hold in a column, each once.
    pub fn distinct_values(&self, c: Column) -> (r: Vec<String>)
        ensures
            forall|k: int| 0 <= k < r@.len() ==> has_value(self@, c, #[trigger] r@[k]@),
            forall|i: int| 0 <= i < self@.len() ==> strs(r@).contains(field_of(#[trigger] self@[i], c)),
            forall|a: int, b: int| 0 <= a < b < r@.len() ==> (#[trigger] r@[a])@ != (#[trigger] r@[b])@,
    {
        let mut r: Vec<String> = Vec::new();
        let mut i: usize = 0;
        while i < self.rows.len()
            invariant
                i <= self.rows@.len(),
                self@ == recs(self.rows@),
                forall|k: int| 0 <= k < r@.len() ==> has_value(self@, c, #[trigger] r@[k]@),
                forall|j: int| 0 <= j < i ==> strs(r@).contains(field_of(#[trigger] self@[j], c)),
                forall|a: int, b: int| 0 <= a < b < r@.len() ==> (#[trigger] r@[a])@ != (#[trigger] r@[b])@,
            decreases self.rows@.len() - i,
        {
            let v = field(&self.rows[i], c);
            let ghost before = r@;
            if !contains_str(&r, v) {
                r.push(v.clone());
                proof {
                    assert(r@ == before.push(*v));
                    assert(strs(r@) == strs(before).push(v@));
                    assert(strs(r@)[before.len() as int] == v@);
                    assert forall|j: int| 0 <= j <= i implies strs(r@).contains(
                        field_of(#[trigger] self@[j], c),
                    ) by {
                        if j < i {
                            let w = choose|w: int| 0 <= w < strs(before).len() && strs(before)[w] == field_of(self@[j], c);
                            assert(strs(r@)[w] == field_of(self@[j], c));
                        }
                    }
                    assert(has_value(self@, c, v@)) by {
                        assert(self@[i as int] == self.rows@[i as int]@);
                    }
                    assert forall|a: int, b: int| 0 <= a < b < r@.len() implies (#[trigger] r@[a])@ != (#[trigger] r@[b])@ by {
                        if b == before.len() {
                            assert(strs(before)[a] == r@[a]@);
                        }
                    }
                }
            } else {
                proof {
                    assert(self@[i as int] == self.rows@[i as int]@);
                }
            }
            i += 1;
        }
        r
    }

    /// Removes every record.
    pub fn clear(&mut self)
        ensures
            final(self)@ == Seq::<SymbolRec>::empty(),
            final(self).wf(),
    {
        self.rows = Vec::new();
        proof {
            assert(self@ =~= Seq::<SymbolRec>::empty());
        }
    }
}

/// Some record holds `v` in column `c`.
pub open spec fn has_value(rows: Seq<SymbolRec>, c: Column, v: Seq<char>) -> bool {
    exists|i: int| 0 <= i < rows.len() && field_of(#[trigger] rows[i], c) == v
}

} // verus!
