use vstd::prelude::*;
use crate::catalog::{
    field_of, has_value, preds_view, satisfies, select, Catalog, CatalogError, Column, Predicate,
};
use crate::keys::{lemma_strs_push, strs, AssetClass, Category, Exchange};
use crate::symbol::{recs, Symbol, SymbolRec};

verus! {

/// A record falls within the three requested dimensions; `All` admits any value.
pub open spec fn keeps(a: AssetClass, c: Category, e: Exchange, r: SymbolRec) -> bool {
    (a == AssetClass::All || r.asset_class == a.spec_text())
        && (c == Category::All || r.category == c.spec_text())
        && (e == Exchange::All || r.exchange == e.spec_text())
}

/// The records that fall within the three dimensions, in their order.
pub open spec fn filtered(rows: Seq<SymbolRec>, a: AssetClass, c: Category, e: Exchange) -> Seq<
    SymbolRec,
>
    decreases rows.len(),
{
    if rows.len() == 0 {
        Seq::empty()
    } else {
        let rest = filtered(rows.drop_last(), a, c, e);
        if keeps(a, c, e, rows.last()) {
            rest.push(rows.last())
        } else {
            rest
        }
    }
}

proof fn lemma_select_is_filtered(
    rows: Seq<SymbolRec>,
    p: Seq<(Column, Seq<Seq<char>>)>,
    a: AssetClass,
    c: Category,
    e: Exchange,
)
    requires
        forall|i: int| 0 <= i < rows.len() ==> satisfies(#[trigger] rows[i], p) == keeps(a, c, e, rows[i]),
    ensures
        select(rows, p) == filtered(rows, a, c, e),
    decreases rows.len(),
{
    if rows.len() > 0 {
        let d = rows.drop_last();
        assert forall|i: int| 0 <= i < d.len() implies satisfies(#[trigger] d[i], p) == keeps(a, c, e, d[i]) by {
            assert(d[i] == rows[i]);
        }
        lemma_select_is_filtered(d, p, a, c, e);
        assert(satisfies(rows[rows.len() - 1], p) == keeps(a, c, e, rows[rows.len() - 1]));
    }
}

/// With every dimension at `All`, the filter keeps every record, in order.
pub proof fn lemma_all_keeps_everything(rows: Seq<SymbolRec>)
    ensures
        filtered(rows, AssetClass::All, Category::All, Exchange::All) == rows,
    decreases rows.len(),
{
    if rows.len() > 0 {
        lemma_all_keeps_everything(rows.drop_last());
        assert(rows.drop_last().push(rows.last()) =~= rows);
    }
}

/// The unfiltered query returns the whole catalog: as many records as it
/// holds, in order, none twice.
pub proof fn lemma_unfiltered_is_catalog(rows: Seq<SymbolRec>)
    requires
        crate::catalog::keys_unique(rows),
    ensures
        filtered(rows, AssetClass::All, Category::All, Exchange::All) == rows,
        filtered(rows, AssetClass::All, Category::All, Exchange::All).len() == rows.len(),
        crate::catalog::keys_unique(filtered(rows, AssetClass::All, Category::All, Exchange::All)),
{
    lemma_all_keeps_everything(rows);
}

/// A filtered query returns only records of the unfiltered one, each of them
/// within the requested dimensions.
pub proof fn lemma_filtered_is_subset(rows: Seq<SymbolRec>, a: AssetClass, c: Category, e: Exchange)
    ensures
        filtered(rows, a, c, e).len() <= rows.len(),
        forall|i: int|
            0 <= i < filtered(rows, a, c, e).len() ==> rows.contains(
                #[trigger] filtered(rows, a, c, e)[i],
            ) && keeps(a, c, e, filtered(rows, a, c, e)[i]),
    decreases rows.len(),
{
    if rows.len() > 0 {
        let d = rows.drop_last();
        lemma_filtered_is_subset(d, a, c, e);
        let f = filtered(rows, a, c, e);
        let fd = filtered(d, a, c, e);
        assert forall|i: int| 0 <= i < f.len() implies rows.contains(#[trigger] f[i]) && keeps(
            a,
            c,
            e,
            f[i],
        ) by {
            if i < fd.len() {
                assert(f[i] == fd[i]);
                assert(d.contains(fd[i]));
                let w = choose|w: int| 0 <= w < d.len() && d[w] == fd[i];
                assert(rows[w] == d[w]);
            } else {
                assert(f[i] == rows[rows.len() - 1]);
            }
        }
    }
}

proof fn lemma_dim(vals: Seq<Seq<char>>, all: bool, text: Seq<char>, rows: Seq<SymbolRec>, col: Column)
    requires
        all ==> forall|i: int| 0 <= i < rows.len() ==> vals.contains(field_of(#[trigger] rows[i], col)),
        !all ==> vals == seq![text],
    ensures
        forall|i: int|
            0 <= i < rows.len() ==> (vals.contains(field_of(#[trigger] rows[i], col)) <==> (all
                || field_of(rows[i], col) == text)),
{
    if !all {
        assert forall|i: int| 0 <= i < rows.len() implies (vals.contains(field_of(#[trigger] rows[i], col))
            <==> field_of(rows[i], col) == text) by {
            if field_of(rows[i], col) == text {
                assert(vals[0] == text);
            }
        }
    }
}

proof fn lemma_three(x: SymbolRec, p: Seq<(Column, Seq<Seq<char>>)>)
    requires
        p.len() == 3,
    ensures
        satisfies(x, p) == (p[0].1.contains(field_of(x, p[0].0)) && p[1].1.contains(
            field_of(x, p[1].0),
        ) && p[2].1.contains(field_of(x, p[2].0))),
{
    if p[0].1.contains(field_of(x, p[0].0)) && p[1].1.contains(field_of(x, p[1].0)) && p[2].1.contains(
        field_of(x, p[2].0),
    ) {
        assert forall|i: int| 0 <= i < p.len() implies #[trigger] p[i].1.contains(field_of(x, p[i].0)) by {
            if i == 0 {
            } else if i == 1 {
            } else {
            }
        }
    }
}

/// A filtered query omits no record that falls within the requested
/// dimensions.
pub proof fn lemma_filtered_is_complete(rows: Seq<SymbolRec>, a: AssetClass, c: Category, e: Exchange)
    ensures
        forall|i: int|
            0 <= i < rows.len() && keeps(a, c, e, #[trigger] rows[i]) ==> filtered(rows, a, c, e).contains(
                rows[i],
            ),
    decreases rows.len(),
{
    if rows.len() > 0 {
        let d = rows.drop_last();
        lemma_filtered_is_complete(d, a, c, e);
        let f = filtered(rows, a, c, e);
        let fd = filtered(d, a, c, e);
        assert forall|i: int| 0 <= i < rows.len() && keeps(a, c, e, #[trigger] rows[i]) implies f.contains(
            rows[i],
        ) by {
            if i < d.len() {
                assert(d[i] == rows[i]);
                let w = choose|w: int| 0 <= w < fd.len() && fd[w] == d[i];
                assert(f[w] == fd[w]);
            } else {
                assert(f[f.len() - 1] == rows[i]);
            }
        }
    }
}

/// The predicate on the asset class column that a filter value stands for.
fn asset_class_predicate(cat: &Catalog, v: AssetClass) -> (r: Predicate)
    ensures
        r.column == Column::AssetClass,
        forall|i: int|
            0 <= i < cat@.len() ==> (strs(r.values@).contains((#[trigger] cat@[i]).asset_class) <==> (v
                == AssetClass::All || cat@[i].asset_class == v.spec_text())),
{
    let known = cat.distinct_values(Column::AssetClass);
    let vals = v.expand(&known);
    proof {
        lemma_dim(strs(vals@), v == AssetClass::All, v.spec_text(), cat@, Column::AssetClass);
        assert forall|i: int| 0 <= i < cat@.len() implies field_of(#[trigger] cat@[i], Column::AssetClass) == cat@[i].asset_class by {}
    }
    Predicate { column: Column::AssetClass, values: vals }
}

/// The predicate on the category column that a filter value stands for.
fn category_predicate(cat: &Catalog, v: Category) -> (r: Predicate)
    ensures
        r.column == Column::Category,
        forall|i: int|
            0 <= i < cat@.len() ==> (strs(r.values@).contains((#[trigger] cat@[i]).category) <==> (v
                == Category::All || cat@[i].category == v.spec_text())),
{
    let known = cat.distinct_values(Column::Category);
    let vals = v.expand(&known);
    proof {
        lemma_dim(strs(vals@), v == Category::All, v.spec_text(), cat@, Column::Category);
        assert forall|i: int| 0 <= i < cat@.len() implies field_of(#[trigger] cat@[i], Column::Category) == cat@[i].category by {}
    }
    Predicate { column: Column::Category, values: vals }
}

/// The predicate on the exchange column that a filter value stands for.
fn exchange_predicate(cat: &Catalog, v: Exchange) -> (r: Predicate)
    ensures
        r.column == Column::Exchange,
        forall|i: int|
            0 <= i < cat@.len() ==> (strs(r.values@).contains((#[trigger] cat@[i]).exchange) <==> (v
                == Exchange::All || cat@[i].exchange == v.spec_text())),
{
    let known = cat.distinct_values(Column::Exchange);
    let vals = v.expand(&known);
    proof {
        lemma_dim(strs(vals@), v == Exchange::All, v.spec_text(), cat@, Column::Exchange);
        assert forall|i: int| 0 <= i < cat@.len() implies field_of(#[trigger] cat@[i], Column::Exchange) == cat@[i].exchange by {}
    }
    Predicate { column: Column::Exchange, values: vals }
}

/// The records of the catalog that fall within the requested asset class,
/// category and exchange, in insertion order. `All` stands for every value
/// that the catalog holds in that column.
pub fn get_symbols(cat: &Catalog, asset_class: AssetClass, category: Category, exchange: Exchange) -> (r: Vec<Symbol>)
    ensures
        recs(r@) == filtered(cat@, asset_class, category, exchange),
{
    let pa = asset_class_predicate(cat, asset_class);
    let pc = category_predicate(cat, category);
    let pe = exchange_predicate(cat, exchange);
    let ghost ga = pa@;
    let ghost gc = pc@;
    let ghost ge = pe@;
    let mut preds: Vec<Predicate> = Vec::new();
    preds.push(pa);
    preds.push(pc);
    preds.push(pe);
    let r = cat.query_all(&preds);
    proof {
        let p = preds_view(preds@);
        assert(p =~= seq![ga, gc, ge]);
        assert forall|i: int| 0 <= i < cat@.len() implies satisfies(#[trigger] cat@[i], p) == keeps(
            asset_class,
            category,
            exchange,
            cat@[i],
        ) by {
            lemma_three(cat@[i], p);
            assert(field_of(cat@[i], p[0].0) == cat@[i].asset_class);
            assert(field_of(cat@[i], p[1].0) == cat@[i].category);
            assert(field_of(cat@[i], p[2].0) == cat@[i].exchange);
        }
        lemma_select_is_filtered(cat@, p, asset_class, category, exchange);
    }
    r
}

/// The record that holds `symbol`.
pub fn get_symbol(cat: &Catalog, symbol: &str) -> (r: Result<Symbol, CatalogError>)
    ensures
        match r {
            Ok(s) => s.symbol@ == symbol@ && cat@.contains(s@),
            Err(e) => e == CatalogError::NotFound && !crate::catalog::has_key(cat@, symbol@),
        },
{
    match cat.position(symbol) {
        Some(i) => {
            let s = cat.row(i).duplicate();
            proof {
                assert(cat@[i as int] == s@);
            }
            Ok(s)
        },
        None => Err(CatalogError::NotFound),
    }
}

/// The number of records in the catalog.
pub fn get_symbols_count(cat: &Catalog) -> (r: usize)
    ensures
        r == cat@.len(),
{
    cat.count_all()
}

/// The distinct exchanges of the catalog, each once.
pub fn get_distinct_exchanges(cat: &Catalog) -> (r: Vec<String>)
    ensures
        forall|k: int| 0 <= k < r@.len() ==> has_value(cat@, Column::Exchange, #[trigger] r@[k]@),
        forall|i: int| 0 <= i < cat@.len() ==> strs(r@).contains((#[trigger] cat@[i]).exchange),
        forall|a: int, b: int| 0 <= a < b < r@.len() ==> (#[trigger] r@[a])@ != (#[trigger] r@[b])@,
{
    let r = cat.distinct_values(Column::Exchange);
    proof {
        assert forall|i: int| 0 <= i < cat@.len() implies strs(r@).contains((#[trigger] cat@[i]).exchange) by {
            assert(field_of(cat@[i], Column::Exchange) == cat@[i].exchange);
        }
    }
    r
}

/// The distinct categories of the catalog, each once.
pub fn get_distinct_categories(cat: &Catalog) -> (r: Vec<String>)
    ensures
        forall|k: int| 0 <= k < r@.len() ==> has_value(cat@, Column::Category, #[trigger] r@[k]@),
        forall|i: int| 0 <= i < cat@.len() ==> strs(r@).contains((#[trigger] cat@[i]).category),
        forall|a: int, b: int| 0 <= a < b < r@.len() ==> (#[trigger] r@[a])@ != (#[trigger] r@[b])@,
{
    let r = cat.distinct_values(Column::Category);
    proof {
        assert forall|i: int| 0 <= i < cat@.len() implies strs(r@).contains((#[trigger] cat@[i]).category) by {
            assert(field_of(cat@[i], Column::Category) == cat@[i].category);
        }
    }
    r
}

/// The distinct asset classes of the catalog, each once.
pub fn get_distinct_asset_classes(cat: &Catalog) -> (r: Vec<String>)
    ensures
        forall|k: int| 0 <= k < r@.len() ==> has_value(cat@, Column::AssetClass, #[trigger] r@[k]@),
        forall|i: int| 0 <= i < cat@.len() ==> strs(r@).contains((#[trigger] cat@[i]).asset_class),
        forall|a: int, b: int| 0 <= a < b < r@.len() ==> (#[trigger] r@[a])@ != (#[trigger] r@[b])@,
{
    let r = cat.distinct_values(Column::AssetClass);
    proof {
        assert forall|i: int| 0 <= i < cat@.len() implies strs(r@).contains((#[trigger] cat@[i]).asset_class) by {
            assert(field_of(cat@[i], Column::AssetClass) == cat@[i].asset_class);
        }
    }
    r
}

/// The catalog as five named columns, one entry per record.
pub struct SymbolColumns {
    pub symbol: Vec<String>,
    pub name: Vec<String>,
    pub category: Vec<String>,
    pub asset_class: Vec<String>,
    pub exchange: Vec<String>,
}

/// The whole catalog, unfiltered, turned into columns.
pub fn get_symbols_df(cat: &Catalog) -> (r: SymbolColumns)
    ensures
        strs(r.symbol@) == cat@.map_values(|x: SymbolRec| x.symbol),
        strs(r.name@) == cat@.map_values(|x: SymbolRec| x.name),
        strs(r.category@) == cat@.map_values(|x: SymbolRec| x.category),
        strs(r.asset_class@) == cat@.map_values(|x: SymbolRec| x.asset_class),
        strs(r.exchange@) == cat@.map_values(|x: SymbolRec| x.exchange),
{
    let rows = get_symbols(cat, AssetClass::All, Category::All, Exchange::All);
    proof {
        lemma_all_keeps_everything(cat@);
    }
    let mut out = SymbolColumns {
        symbol: Vec::new(),
        name: Vec::new(),
        category: Vec::new(),
        asset_class: Vec::new(),
        exchange: Vec::new(),
    };
    let mut i: usize = 0;
    while i < rows.len()
        invariant
            i <= rows@.len(),
            recs(rows@) == cat@,
            strs(out.symbol@) == cat@.subrange(0, i as int).map_values(|x: SymbolRec| x.symbol),
            strs(out.name@) == cat@.subrange(0, i as int).map_values(|x: SymbolRec| x.name),
            strs(out.category@) == cat@.subrange(0, i as int).map_values(|x: SymbolRec| x.category),
            strs(out.asset_class@) == cat@.subrange(0, i as int).map_values(
                |x: SymbolRec| x.asset_class,
            ),
            strs(out.exchange@) == cat@.subrange(0, i as int).map_values(|x: SymbolRec| x.exchange),
        decreases rows@.len() - i,
    {
        let s = &rows[i];
        proof {
            assert(cat@[i as int] == s@);
        }
        let ghost old_sym = out.symbol@;
        let ghost old_name = out.name@;
        let ghost old_cat = out.category@;
        let ghost old_ac = out.asset_class@;
        let ghost old_ex = out.exchange@;
        out.symbol.push(s.symbol.clone());
        out.name.push(s.name.clone());
        out.category.push(s.category.clone());
        out.asset_class.push(s.asset_class.clone());
        out.exchange.push(s.exchange.clone());
        proof {
            lemma_strs_push(old_sym, s.symbol);
            lemma_strs_push(old_name, s.name);
            lemma_strs_push(old_cat, s.category);
            lemma_strs_push(old_ac, s.asset_class);
            lemma_strs_push(old_ex, s.exchange);
            assert(strs(out.symbol@) =~= cat@.subrange(0, i + 1).map_values(|x: SymbolRec| x.symbol));
            assert(strs(out.name@) =~= cat@.subrange(0, i + 1).map_values(|x: SymbolRec| x.name));
            assert(strs(out.category@) =~= cat@.subrange(0, i + 1).map_values(
                |x: SymbolRec| x.category,
            ));
            assert(strs(out.asset_class@) =~= cat@.subrange(0, i + 1).map_values(
                |x: SymbolRec| x.asset_class,
            ));
            assert(strs(out.exchange@) =~= cat@.subrange(0, i + 1).map_values(
                |x: SymbolRec| x.exchange,
            ));
        }
        i += 1;
    }
    proof {
        assert(cat@.subrange(0, cat@.len() as int) =~= cat@);
    }
    out
}

/// What `str::to_lowercase` returns for a text.
pub uninterp spec fn lower_of(s: Seq<char>) -> Seq<char>;

/// Relies on std's `str::to_lowercase`: the lowercase form of the text,
/// which depends on the characters alone.
#[verifier::external_body]
fn lowercase(s: &str) -> (r: String)
    ensures
        r@ == lower_of(s@),
        s@.len() == 0 ==> r@.len() == 0,
{
    s.to_lowercase()
}

/// `needle` occurs as a contiguous part of `hay`.
pub open spec fn has_infix(hay: Seq<char>, needle: Seq<char>) -> bool {
    exists|i: int| 0 <= i <= hay.len() - needle.len() && #[trigger] hay.subrange(i, i + needle.len()) == needle
}

/// Relies on std's `str::contains` with a `&str` pattern: true exactly when
/// the pattern matches a sub-slice of the text.
#[verifier::external_body]
fn contains_text(hay: &str, needle: &str) -> (r: bool)
    ensures
        r == has_infix(hay@, needle@),
{
    hay.contains(needle)
}

/// A search hit: the lowercased query occurs in the lowercased symbol or name.
pub open spec fn is_hit(query_folded: Seq<char>, symbol_folded: Seq<char>, name_folded: Seq<char>) -> bool {
    has_infix(symbol_folded, query_folded) || has_infix(name_folded, query_folded)
}

/// Decides a hit from texts that are already lowercased.
pub fn is_hit_folded(query_folded: &str, symbol_folded: &str, name_folded: &str) -> (r: bool)
    ensures
        r == is_hit(query_folded@, symbol_folded@, name_folded@),
{
    contains_text(symbol_folded, query_folded) || contains_text(name_folded, query_folded)
}

/// The asset class that a search label names, if it is one of the fixed set.
pub open spec fn label_class(l: Seq<char>) -> Option<AssetClass> {
    if l == "Equity"@ {
        Some(AssetClass::Stocks)
    } else if l == "ETF"@ {
        Some(AssetClass::ETFs)
    } else if l == "Mutual Fund"@ {
        Some(AssetClass::MutualFunds)
    } else if l == "Index"@ {
        Some(AssetClass::Indices)
    } else if l == "Currency"@ {
        Some(AssetClass::Currencies)
    } else if l == "Futures"@ {
        Some(AssetClass::Futures)
    } else if l == "Crypto"@ {
        Some(AssetClass::Cryptocurrencies)
    } else {
        None
    }
}

/// The asset class that a search label names, if it is one of the fixed set.
pub fn asset_class_for_label(label: &str) -> (r: Option<AssetClass>)
    ensures
        r == label_class(label@),
{
    let l = String::from_str(label);
    if l == String::from_str("Equity") {
        Some(AssetClass::Stocks)
    } else if l == String::from_str("ETF") {
        Some(AssetClass::ETFs)
    } else if l == String::from_str("Mutual Fund") {
        Some(AssetClass::MutualFunds)
    } else if l == String::from_str("Index") {
        Some(AssetClass::Indices)
    } else if l == String::from_str("Currency") {
        Some(AssetClass::Currencies)
    } else if l == String::from_str("Futures") {
        Some(AssetClass::Futures)
    } else if l == String::from_str("Crypto") {
        Some(AssetClass::Cryptocurrencies)
    } else {
        None
    }
}

/// The (symbol, name) pairs of the records that the folded query hits, in order.
pub open spec fn hits(rows: Seq<SymbolRec>, q: Seq<char>) -> Seq<(Seq<char>, Seq<char>)>
    decreases rows.len(),
{
    if rows.len() == 0 {
        Seq::empty()
    } else {
        let rest = hits(rows.drop_last(), q);
        let x = rows.last();
        if is_hit(q, lower_of(x.symbol), lower_of(x.name)) {
            rest.push((x.symbol, x.name))
        } else {
            rest
        }
    }
}

/// The text of each pair of strings.
pub open spec fn pairs(v: Seq<(String, String)>) -> Seq<(Seq<char>, Seq<char>)> {
    v.map_values(|p: (String, String)| (p.0@, p.1@))
}

/// The (symbol, name) pairs of the records of one asset class, named by its
/// search label, whose symbol or name holds `query`, ignoring case. A label
/// outside the fixed set is a configuration error.
pub fn search_symbols(cat: &Catalog, query: &str, asset_class: &str) -> (r: Result<
    Vec<(String, String)>,
    CatalogError,
>)
    ensures
        match label_class(asset_class@) {
            None => r == Err::<Vec<(String, String)>, CatalogError>(CatalogError::ConfigurationError),
            Some(a) => r is Ok && pairs(r->Ok_0@) == hits(
                filtered(cat@, a, Category::All, Exchange::All),
                lower_of(query@),
            ),
        },
{
    let a = match asset_class_for_label(asset_class) {
        Some(a) => a,
        None => return Err(CatalogError::ConfigurationError),
    };
    let rows = get_symbols(cat, a, Category::All, Exchange::All);
    let q = lowercase(query);
    let ghost rs = recs(rows@);
    let mut out: Vec<(String, String)> = Vec::new();
    let mut i: usize = 0;
    while i < rows.len()
        invariant
            i <= rows@.len(),
            rs == recs(rows@),
            q@ == lower_of(query@),
            pairs(out@) == hits(rs.subrange(0, i as int), q@),
        decreases rows@.len() - i,
    {
        let s = &rows[i];
        let ghost pre = rs.subrange(0, i as int + 1);
        proof {
            assert(pre.drop_last() =~= rs.subrange(0, i as int));
            assert(pre.last() == s@);
        }
        let ls = lowercase(s.symbol.as_str());
        let ln = lowercase(s.name.as_str());
        if is_hit_folded(q.as_str(), ls.as_str(), ln.as_str()) {
            let ghost before = out@;
            out.push((s.symbol.clone(), s.name.clone()));
            proof {
                assert(pairs(out@) =~= pairs(before).push((s.symbol@, s.name@)));
            }
        }
        i += 1;
    }
    proof {
        assert(rs.subrange(0, rs.len() as int) =~= rs);
    }
    Ok(out)
}

} // verus!
