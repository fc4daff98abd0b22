use vstd::prelude::*;
use crate::catalog::{has_key, keys_unique, Catalog};
use crate::listing::{parse_listing, parsed, table_cells_of};
use crate::symbol::{recs, Symbol, SymbolRec};

verus! {

/// What html-escape's `decode_html_entities` returns for a text.
pub uninterp spec fn decoded_of(s: Seq<char>) -> Seq<char>;

/// Relies on html-escape's `decode_html_entities`: the text with its HTML
/// character references decoded; it depends on the text alone.
#[verifier::external_body]
fn decode_entities(s: &str) -> (r: String)
    ensures
        r@ == decoded_of(s@),
{
    html_escape::decode_html_entities(s).to_string()
}

/// The record as it is stored: its name with character references decoded.
pub open spec fn stored(x: SymbolRec) -> SymbolRec {
    SymbolRec { name: decoded_of(x.name), ..x }
}

/// The catalog after offering it `incoming` in order: each record whose
/// symbol is not yet present is appended in its stored form; the others
/// are passed over.
pub open spec fn merged(base: Seq<SymbolRec>, incoming: Seq<SymbolRec>) -> Seq<SymbolRec>
    decreases incoming.len(),
{
    if incoming.len() == 0 {
        base
    } else {
        let m = merged(base, incoming.drop_last());
        let x = incoming.last();
        if has_key(m, x.symbol) {
            m
        } else {
            m.push(stored(x))
        }
    }
}

/// The text of each page that was fetched; `None` where the fetch failed.
pub open spec fn pages_view(v: Seq<Option<String>>) -> Seq<Option<Seq<char>>> {
    v.map_values(|p: Option<String>| match p {
        Some(s) => Some(s@),
        None => None,
    })
}

/// The catalog after ingesting, in order, each page that was fetched;
/// the pages whose fetch failed are passed over.
pub open spec fn ingested(base: Seq<SymbolRec>, pages: Seq<Option<Seq<char>>>) -> Seq<SymbolRec>
    decreases pages.len(),
{
    if pages.len() == 0 {
        base
    } else {
        let before = ingested(base, pages.drop_last());
        match pages.last() {
            Some(doc) => merged(before, parsed(table_cells_of(doc))),
            None => before,
        }
    }
}

/// The positions of the pages whose fetch failed, in order.
pub open spec fn failures(pages: Seq<Option<Seq<char>>>) -> Seq<int>
    decreases pages.len(),
{
    if pages.len() == 0 {
        Seq::empty()
    } else {
        let before = failures(pages.drop_last());
        match pages.last() {
            Some(_) => before,
            None => before.push(pages.len() - 1),
        }
    }
}

/// The stored form of a record, ready to insert.
pub fn stored_record(x: &Symbol) -> (r: Symbol)
    ensures
        r@ == stored(x@),
{
    Symbol {
        symbol: x.symbol.clone(),
        name: decode_entities(x.name.as_str()),
        category: x.category.clone(),
        asset_class: x.asset_class.clone(),
        exchange: x.exchange.clone(),
    }
}

/// Offers each record to the catalog, in order: one whose symbol is absent
/// is stored with its name decoded; the others are skipped. Returns how
/// many were added.
pub fn ingest_records(cat: &mut Catalog, incoming: &Vec<Symbol>) -> (n: usize)
    requires
        old(cat).wf(),
    ensures
        final(cat).wf(),
        final(cat)@ == merged(old(cat)@, recs(incoming@)),
        n == final(cat)@.len() - old(cat)@.len(),
{
    let ghost base = cat@;
    let ghost inc = recs(incoming@);
    let start = cat.count_all();
    let mut i: usize = 0;
    while i < incoming.len()
        invariant
            i <= incoming@.len(),
            inc == recs(incoming@),
            cat.wf(),
            cat@ == merged(base, inc.subrange(0, i as int)),
            start == base.len(),
            cat@.len() >= base.len(),
        decreases incoming@.len() - i,
    {
        let x = &incoming[i];
        let ghost pre = inc.subrange(0, i as int + 1);
        proof {
            assert(pre.drop_last() =~= inc.subrange(0, i as int));
            assert(pre.last() == x@);
        }
        if !cat.contains_symbol(x.symbol.as_str()) {
            let r = stored_record(x);
            let _ = cat.insert(r);
        }
        i += 1;
    }
    proof {
        assert(inc.subrange(0, inc.len() as int) =~= inc);
    }
    cat.count_all() - start
}

/// Parses a listing page and offers its records to the catalog. Returns how
/// many were added.
pub fn ingest_page(cat: &mut Catalog, doc: &str) -> (n: usize)
    requires
        old(cat).wf(),
    ensures
        final(cat).wf(),
        final(cat)@ == merged(old(cat)@, parsed(table_cells_of(doc@))),
        n == final(cat)@.len() - old(cat)@.len(),
{
    let incoming = parse_listing(doc);
    ingest_records(cat, &incoming)
}

/// Rebuilds the catalog from scratch: every record is removed, then each
/// page that was fetched is ingested in order. A failed fetch spoils no
/// other page: its position is reported in the result, in order.
pub fn update_database(cat: &mut Catalog, pages: &Vec<Option<String>>) -> (failed: Vec<usize>)
    requires
        old(cat).wf(),
    ensures
        final(cat).wf(),
        final(cat)@ == ingested(Seq::empty(), pages_view(pages@)),
        failed@.map_values(|k: usize| k as int) == failures(pages_view(pages@)),
{
    cat.clear();
    let ghost pv = pages_view(pages@);
    let mut failed: Vec<usize> = Vec::new();
    let mut i: usize = 0;
    while i < pages.len()
        invariant
            i <= pages@.len(),
            pv == pages_view(pages@),
            cat.wf(),
            cat@ == ingested(Seq::empty(), pv.subrange(0, i as int)),
            failed@.map_values(|k: usize| k as int) == failures(pv.subrange(0, i as int)),
        decreases pages@.len() - i,
    {
        let ghost pre = pv.subrange(0, i as int + 1);
        proof {
            assert(pre.drop_last() =~= pv.subrange(0, i as int));
            assert(pre.last() == pv[i as int]);
        }
        match &pages[i] {
            Some(doc) => {
                ingest_page(cat, doc.as_str());
            },
            None => {
                let ghost before = failed@;
                failed.push(i);
                proof {
                    assert(failed@.map_values(|k: usize| k as int) =~= before.map_values(
                        |k: usize| k as int,
                    ).push(i as int));
                }
            },
        }
        i += 1;
    }
    proof {
        assert(pv.subrange(0, pv.len() as int) =~= pv);
    }
    failed
}

/// Ingestion only appends: the old records stay in place, and afterwards
/// every offered symbol is present.
pub proof fn lemma_merged_extends(base: Seq<SymbolRec>, incoming: Seq<SymbolRec>)
    ensures
        merged(base, incoming).len() >= base.len(),
        forall|i: int| 0 <= i < base.len() ==> #[trigger] merged(base, incoming)[i] == base[i],
        forall|j: int| 0 <= j < incoming.len() ==> has_key(merged(base, incoming), (#[trigger] incoming[j]).symbol),
    decreases incoming.len(),
{
    if incoming.len() > 0 {
        let d = incoming.drop_last();
        lemma_merged_extends(base, d);
        let m = merged(base, d);
        let x = incoming.last();
        let r = merged(base, incoming);
        assert forall|j: int| 0 <= j < incoming.len() implies has_key(r, (#[trigger] incoming[j]).symbol) by {
            if j < d.len() {
                assert(d[j] == incoming[j]);
                assert(has_key(m, d[j].symbol));
                let w = choose|w: int| 0 <= w < m.len() && (#[trigger] m[w]).symbol == d[j].symbol;
                assert(r[w] == m[w]);
            } else if !has_key(m, x.symbol) {
                assert(r[m.len() as int] == stored(x));
            }
        }
        assert forall|i: int| 0 <= i < base.len() implies #[trigger] r[i] == base[i] by {
            assert(m[i] == base[i]);
        }
    }
}

/// Offering records whose symbols are all present changes nothing.
pub proof fn lemma_merge_present(base: Seq<SymbolRec>, incoming: Seq<SymbolRec>)
    requires
        forall|j: int| 0 <= j < incoming.len() ==> has_key(base, (#[trigger] incoming[j]).symbol),
    ensures
        merged(base, incoming) == base,
    decreases incoming.len(),
{
    if incoming.len() > 0 {
        let d = incoming.drop_last();
        assert forall|j: int| 0 <= j < d.len() implies has_key(base, (#[trigger] d[j]).symbol) by {
            assert(d[j] == incoming[j]);
        }
        lemma_merge_present(base, d);
        assert(has_key(base, incoming[incoming.len() - 1].symbol));
    }
}

/// Ingesting the same records twice leaves the catalog as ingesting them once.
pub proof fn lemma_ingest_idempotent(base: Seq<SymbolRec>, incoming: Seq<SymbolRec>)
    ensures
        merged(merged(base, incoming), incoming) == merged(base, incoming),
{
    lemma_merged_extends(base, incoming);
    lemma_merge_present(merged(base, incoming), incoming);
}

/// Ingesting the same page twice leaves the catalog as ingesting it once.
pub proof fn lemma_page_idempotent(base: Seq<SymbolRec>, doc: Seq<char>)
    ensures
        merged(merged(base, parsed(table_cells_of(doc))), parsed(table_cells_of(doc)))
            == merged(base, parsed(table_cells_of(doc))),
{
    lemma_ingest_idempotent(base, parsed(table_cells_of(doc)));
}

/// Ingestion keeps symbols unique.
pub proof fn lemma_merged_keys_unique(base: Seq<SymbolRec>, incoming: Seq<SymbolRec>)
    requires
        keys_unique(base),
    ensures
        keys_unique(merged(base, incoming)),
    decreases incoming.len(),
{
    if incoming.len() > 0 {
        let d = incoming.drop_last();
        lemma_merged_keys_unique(base, d);
        let m = merged(base, d);
        let x = incoming.last();
        if !has_key(m, x.symbol) {
            let r = m.push(stored(x));
            assert forall|i: int, j: int| 0 <= i < j < r.len() implies (#[trigger] r[i]).symbol
                != (#[trigger] r[j]).symbol by {
                if j == m.len() {
                    assert(r[i] == m[i]);
                }
            }
        }
    }
}

/// Once a record is stored its symbol is present, so a second insert of the
/// same symbol is refused as a duplicate.
pub proof fn lemma_second_insert_is_duplicate(rows: Seq<SymbolRec>, x: SymbolRec)
    ensures
        has_key(rows.push(x), x.symbol),
{
    assert(rows.push(x)[rows.len() as int] == x);
}

/// A record ingested into a catalog that lacks its symbol is found under
/// that symbol with its name decoded.
pub proof fn lemma_round_trip(base: Seq<SymbolRec>, x: SymbolRec)
    requires
        keys_unique(base),
        !has_key(base, x.symbol),
    ensures
        merged(base, seq![x]) == base.push(stored(x)),
        forall|i: int|
            0 <= i < merged(base, seq![x]).len() && (#[trigger] merged(base, seq![x])[i]).symbol
                == x.symbol ==> merged(base, seq![x])[i].name == decoded_of(x.name),
{
    assert(seq![x].drop_last() =~= Seq::<SymbolRec>::empty());
    assert(merged(base, seq![x].drop_last()) == base);
    assert(seq![x].last() == x);
    assert(merged(base, seq![x]) == base.push(stored(x)));
    let m = base.push(stored(x));
    assert forall|i: int| 0 <= i < m.len() && (#[trigger] m[i]).symbol == x.symbol implies m[i].name
        == decoded_of(x.name) by {
        if i < base.len() {
            assert(m[i] == base[i]);
        }
    }
}

/// The record at position `j` of `incoming` is the first to carry its
/// symbol, and the catalog did not hold that symbol before.
pub open spec fn first_new(base: Seq<SymbolRec>, incoming: Seq<SymbolRec>, j: int) -> bool {
    !has_key(base, incoming[j].symbol) && forall|k: int|
        0 <= k < j ==> (#[trigger] incoming[k]).symbol != incoming[j].symbol
}

/// Ingestion stores, for each new symbol, the first offered record that
/// carries it, with its name decoded; later records with that symbol are
/// passed over, and nothing else is added.
pub proof fn lemma_merged_first_occurrence(base: Seq<SymbolRec>, incoming: Seq<SymbolRec>)
    ensures
        forall|k: int|
            base.len() <= k < merged(base, incoming).len() ==> exists|j: int|
                0 <= j < incoming.len() && first_new(base, incoming, j) && #[trigger] merged(
                    base,
                    incoming,
                )[k] == stored(incoming[j]),
        forall|j: int|
            0 <= j < incoming.len() && first_new(base, incoming, j) ==> merged(base, incoming).contains(
                stored(#[trigger] incoming[j]),
            ),
    decreases incoming.len(),
{
    if incoming.len() > 0 {
        let d = incoming.drop_last();
        let n = incoming.len() - 1;
        let x = incoming.last();
        let md = merged(base, d);
        let m = merged(base, incoming);
        lemma_merged_first_occurrence(base, d);
        lemma_merged_extends(base, d);
        assert forall|j: int| 0 <= j < d.len() && first_new(base, d, j) implies first_new(base, incoming, j) by {
            assert(d[j] == incoming[j]);
            assert forall|k: int| 0 <= k < j implies (#[trigger] incoming[k]).symbol != incoming[j].symbol by {
                assert(d[k] == incoming[k]);
            }
        }
        assert forall|j: int| 0 <= j < d.len() && first_new(base, incoming, j) implies first_new(base, d, j) by {
            assert(d[j] == incoming[j]);
            assert forall|k: int| 0 <= k < j implies (#[trigger] d[k]).symbol != d[j].symbol by {
                assert(d[k] == incoming[k]);
            }
        }
        // Whether the last record is the first to carry a new symbol.
        if first_new(base, incoming, n) {
            assert(!has_key(md, x.symbol)) by {
                if has_key(md, x.symbol) {
                    let w = choose|w: int| 0 <= w < md.len() && (#[trigger] md[w]).symbol == x.symbol;
                    if w < base.len() {
                        assert(md[w] == base[w]);
                        assert(has_key(base, x.symbol));
                    } else {
                        let j = choose|j: int|
                            0 <= j < d.len() && first_new(base, d, j) && #[trigger] md[w] == stored(d[j]);
                        assert(d[j] == incoming[j]);
                        assert(incoming[j].symbol != x.symbol);
                    }
                }
            }
            assert(m == md.push(stored(x)));
            assert(m[md.len() as int] == stored(x));
        } else {
            assert(has_key(base, x.symbol) || exists|k: int| 0 <= k < n && (#[trigger] incoming[k]).symbol == x.symbol);
            if has_key(base, x.symbol) {
                let w = choose|w: int| 0 <= w < base.len() && (#[trigger] base[w]).symbol == x.symbol;
                assert(md[w] == base[w]);
            } else {
                let k = choose|k: int| 0 <= k < n && (#[trigger] incoming[k]).symbol == x.symbol;
                assert(d[k] == incoming[k]);
                assert(has_key(md, d[k].symbol));
            }
            assert(m == md);
        }
        assert forall|k: int| base.len() <= k < m.len() implies exists|j: int|
            0 <= j < incoming.len() && first_new(base, incoming, j) && #[trigger] m[k] == stored(incoming[j]) by {
            if k < md.len() {
                let j = choose|j: int| 0 <= j < d.len() && first_new(base, d, j) && #[trigger] md[k] == stored(d[j]);
                assert(d[j] == incoming[j]);
                assert(m[k] == md[k]);
            } else {
                assert(first_new(base, incoming, n));
            }
        }
        assert forall|j: int| 0 <= j < incoming.len() && first_new(base, incoming, j) implies m.contains(
            stored(#[trigger] incoming[j]),
        ) by {
            if j < n {
                assert(d[j] == incoming[j]);
                assert(first_new(base, d, j));
                assert(md.contains(stored(d[j])));
                let w = choose|w: int| 0 <= w < md.len() && md[w] == stored(d[j]);
                assert(m[w] == md[w]);
            } else {
                assert(m[md.len() as int] == stored(x));
            }
        }
    }
}

/// After a sweep, every record parsed from every fetched page has its
/// symbol in the catalog, whatever short rows or failed fetches stood
/// beside it; and the records held before stay in place.
pub proof fn lemma_sweep_keeps_every_page(base: Seq<SymbolRec>, pages: Seq<Option<Seq<char>>>)
    ensures
        ingested(base, pages).len() >= base.len(),
        forall|w: int| 0 <= w < base.len() ==> #[trigger] ingested(base, pages)[w] == base[w],
        forall|i: int, j: int|
            0 <= i < pages.len() && pages[i] is Some && 0 <= j < parsed(
                table_cells_of(pages[i]->Some_0),
            ).len() ==> has_key(
                ingested(base, pages),
                (#[trigger] parsed(table_cells_of(#[trigger] pages[i]->Some_0))[j]).symbol,
            ),
    decreases pages.len(),
{
    if pages.len() > 0 {
        let d = pages.drop_last();
        let n = pages.len() - 1;
        let before = ingested(base, d);
        let after = ingested(base, pages);
        lemma_sweep_keeps_every_page(base, d);
        match pages.last() {
            Some(doc) => {
                lemma_merged_extends(before, parsed(table_cells_of(doc)));
            },
            None => {},
        }
        assert(after.len() >= before.len());
        assert forall|w: int| 0 <= w < before.len() implies #[trigger] after[w] == before[w] by {}
        assert forall|i: int, j: int|
            0 <= i < pages.len() && pages[i] is Some && 0 <= j < parsed(
                table_cells_of(pages[i]->Some_0),
            ).len() implies has_key(
            after,
            (#[trigger] parsed(table_cells_of(#[trigger] pages[i]->Some_0))[j]).symbol,
        ) by {
            let p = parsed(table_cells_of(pages[i]->Some_0));
            if i < n {
                assert(d[i] == pages[i]);
                assert(has_key(before, p[j].symbol));
                let w = choose|w: int| 0 <= w < before.len() && (#[trigger] before[w]).symbol == p[j].symbol;
                assert(after[w] == before[w]);
            } else {
                assert(pages[i] == pages.last());
            }
        }
        assert forall|w: int| 0 <= w < base.len() implies #[trigger] after[w] == base[w] by {
            assert(before[w] == base[w]);
        }
    }
}

} // verus!
