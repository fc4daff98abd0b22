use vstd::prelude::*;
use crate::keys::strs;
use crate::symbol::{recs, Symbol, SymbolRec};

verus! {

/// What scraper finds in a listing page: for each body row of its tables,
/// the inner markup of each cell.
pub uninterp spec fn table_cells_of(doc: Seq<char>) -> Seq<Seq<Seq<char>>>;

/// What scraper finds in a fragment: the `data-symbol` attribute of its
/// first link, if it has a link that carries one.
pub uninterp spec fn link_symbol_attr_of(fragment: Seq<char>) -> Option<Seq<char>>;

/// What scraper finds in a fragment: the inner markup of its first link, if
/// it has one.
pub uninterp spec fn link_text_of(fragment: Seq<char>) -> Option<Seq<char>>;

/// What `str::trim` returns for a text.
pub uninterp spec fn trimmed_of(s: Seq<char>) -> Seq<char>;

/// The text of each cell of each row.
pub open spec fn cells_view(v: Seq<Vec<String>>) -> Seq<Seq<Seq<char>>> {
    v.map_values(|row: Vec<String>| strs(row@))
}

/// Relies on scraper's `Html::parse_document`, `Selector::parse`,
/// `select` and `inner_html` (attributes in source order, with the
/// `deterministic` feature): the rows `table tbody tr` of the page and, in
/// each, the inner markup of its `td` cells.
#[verifier::external_body]
fn table_cells(doc: &str) -> (r: Vec<Vec<String>>)
    ensures
        cells_view(r@) == table_cells_of(doc@),
{
    let document = scraper::Html::parse_document(doc);
    let rows = scraper::Selector::parse("table tbody tr").unwrap();
    let cells = scraper::Selector::parse("td").unwrap();
    document.select(&rows).map(|row| row.select(&cells).map(|c| c.inner_html()).collect()).collect()
}

/// Relies on scraper's `Html::parse_fragment` and `Element::attr`: the
/// `data-symbol` attribute of the fragment's first `a` element, if there is
/// such an element and it carries the attribute.
#[verifier::external_body]
fn link_symbol_attr(fragment: &str) -> (r: Option<String>)
    ensures
        match r {
            Some(t) => link_symbol_attr_of(fragment@) == Some(t@),
            None => link_symbol_attr_of(fragment@) == None::<Seq<char>>,
        },
{
    let doc = scraper::Html::parse_fragment(fragment);
    let links = scraper::Selector::parse("a").unwrap();
    doc.select(&links).next().and_then(|a| a.value().attr("data-symbol")).map(|s| s.to_string())
}

/// Relies on scraper's `Html::parse_fragment` and `ElementRef::inner_html`
/// (attributes in source order, with the `deterministic` feature): the
/// inner markup of the fragment's first `a` element, if any.
#[verifier::external_body]
fn link_text(fragment: &str) -> (r: Option<String>)
    ensures
        match r {
            Some(t) => link_text_of(fragment@) == Some(t@),
            None => link_text_of(fragment@) == None::<Seq<char>>,
        },
{
    let doc = scraper::Html::parse_fragment(fragment);
    let links = scraper::Selector::parse("a").unwrap();
    doc.select(&links).next().map(|a| a.inner_html())
}

/// Relies on std's `str::trim`: the text without its leading and trailing
/// whitespace, which depends on the characters alone.
#[verifier::external_body]
fn trim_text(s: &str) -> (r: String)
    ensures
        r@ == trimmed_of(s@),
{
    s.trim().to_string()
}

/// The category that stands in place of a missing link.
pub open spec fn no_category() -> Seq<char> {
    "N/A"@
}

/// The record that a row of six or more cells yields, each cell trimmed: the
/// symbol is the first link's `data-symbol` attribute, or empty where there
/// is none; the category is the first link's text, or "N/A" where there is
/// no link.
pub open spec fn record_of_cells(cells: Seq<Seq<char>>) -> SymbolRec {
    SymbolRec {
        symbol: match link_symbol_attr_of(trimmed_of(cells[0])) {
            Some(t) => t,
            None => Seq::empty(),
        },
        name: trimmed_of(cells[1]),
        category: match link_text_of(trimmed_of(cells[3])) {
            Some(t) => trimmed_of(t),
            None => no_category(),
        },
        asset_class: trimmed_of(cells[4]),
        exchange: trimmed_of(cells[5]),
    }
}

/// The records of a page's rows: one for each row of at least six cells,
/// in order; shorter rows are skipped.
pub open spec fn parsed(rows: Seq<Seq<Seq<char>>>) -> Seq<SymbolRec>
    decreases rows.len(),
{
    if rows.len() == 0 {
        Seq::empty()
    } else {
        let rest = parsed(rows.drop_last());
        if rows.last().len() >= 6 {
            rest.push(record_of_cells(rows.last()))
        } else {
            rest
        }
    }
}

/// The number of rows of at least six cells.
pub open spec fn long_rows(rows: Seq<Seq<Seq<char>>>) -> nat
    decreases rows.len(),
{
    if rows.len() == 0 {
        0
    } else {
        long_rows(rows.drop_last()) + if rows.last().len() >= 6 { 1nat } else { 0nat }
    }
}

/// Each row of at least six cells yields exactly one record, and a shorter
/// row yields none and spoils no other row.
pub proof fn lemma_parsed_counts_long_rows(rows: Seq<Seq<Seq<char>>>, short: Seq<Seq<char>>)
    requires
        short.len() < 6,
    ensures
        parsed(rows).len() == long_rows(rows),
        parsed(rows.push(short)) == parsed(rows),
    decreases rows.len(),
{
    assert(rows.push(short).drop_last() =~= rows);
    if rows.len() > 0 {
        lemma_parsed_counts_long_rows(rows.drop_last(), short);
    }
}

/// The record that one row yields.
pub fn record_from_cells(cells: &Vec<String>) -> (r: Symbol)
    requires
        cells@.len() >= 6,
    ensures
        r@ == record_of_cells(strs(cells@)),
{
    let first = trim_text(cells[0].as_str());
    let symbol = match link_symbol_attr(first.as_str()) {
        Some(t) => t,
        None => String::new(),
    };
    let fourth = trim_text(cells[3].as_str());
    let category = match link_text(fourth.as_str()) {
        Some(t) => trim_text(t.as_str()),
        None => String::from_str("N/A"),
    };
    Symbol {
        symbol,
        name: trim_text(cells[1].as_str()),
        category,
        asset_class: trim_text(cells[4].as_str()),
        exchange: trim_text(cells[5].as_str()),
    }
}

/// The records of a page given as rows of cells.
pub fn records_from_cells(rows: &Vec<Vec<String>>) -> (r: Vec<Symbol>)
    ensures
        recs(r@) == parsed(cells_view(rows@)),
{
    let ghost cv = cells_view(rows@);
    let mut out: Vec<Symbol> = Vec::new();
    let mut i: usize = 0;
    while i < rows.len()
        invariant
            i <= rows@.len(),
            cv == cells_view(rows@),
            recs(out@) == parsed(cv.subrange(0, i as int)),
        decreases rows@.len() - i,
    {
        let row = &rows[i];
        let ghost pre = cv.subrange(0, i as int + 1);
        proof {
            assert(pre.drop_last() =~= cv.subrange(0, i as int));
            assert(pre.last() == strs(row@));
        }
        if row.len() >= 6 {
            let ghost before = out@;
            out.push(record_from_cells(row));
            proof {
                assert(recs(out@) =~= recs(before).push(record_of_cells(strs(row@))));
            }
        }
        i += 1;
    }
    proof {
        assert(cv.subrange(0, cv.len() as int) =~= cv);
    }
    out
}

/// The records of a listing page.
pub fn parse_listing(doc: &str) -> (r: Vec<Symbol>)
    ensures
        recs(r@) == parsed(table_cells_of(doc@)),
{
    let rows = table_cells(doc);
    records_from_cells(&rows)
}

} // verus!
