use yahoo_finance_symbols::client::{asset_class_for_label, is_hit_folded};
use yahoo_finance_symbols::ingest::{ingest_page, ingest_records, stored_record};
use yahoo_finance_symbols::listing::{parse_listing, record_from_cells, records_from_cells};
use yahoo_finance_symbols::query::{build_query, column_text};
use yahoo_finance_symbols::sweep::{init_step, listing_url, prefixes, sectors, sweep_urls, InitStep};
use yahoo_finance_symbols::{
    get_distinct_asset_classes, get_distinct_categories, get_distinct_exchanges, get_symbol,
    get_symbols, get_symbols_count, get_symbols_df, search_symbols, update_database, AssetClass,
    Catalog, CatalogError, Category, Column, Exchange, Predicate, Symbol,
};

fn rec(symbol: &str, name: &str, category: &str, asset_class: &str, exchange: &str) -> Symbol {
    Symbol {
        symbol: symbol.to_string(),
        name: name.to_string(),
        category: category.to_string(),
        asset_class: asset_class.to_string(),
        exchange: exchange.to_string(),
    }
}

fn sample() -> Catalog {
    let mut c = Catalog::new();
    c.insert(rec("AAPL", "Apple Inc.", "Technology", "Stocks", "NASDAQ")).unwrap();
    c.insert(rec("MSFT", "Microsoft Corporation", "Technology", "Stocks", "NASDAQ")).unwrap();
    c.insert(rec("XOM", "Exxon Mobil", "Energy", "Stocks", "NYSE")).unwrap();
    c.insert(rec("SPY", "SPDR S&P 500 ETF", "N/A", "ETFs", "NYSEArca")).unwrap();
    c.insert(rec("QQQ", "Invesco QQQ Trust", "N/A", "ETFs", "NASDAQ")).unwrap();
    c.insert(rec("PINE", "Pineapple Holdings", "Consumer Defensive", "Stocks", "OTC")).unwrap();
    c
}

fn row(cells: &[&str]) -> Vec<String> {
    cells.iter().map(|c| c.to_string()).collect()
}

const PAGE: &str = "<html><body><table><tbody>\
<tr><td><a data-symbol=\"BKS\" href=\"/q\">BKS</a></td><td>Barnes &amp; Noble</td><td>12.5</td>\
<td><a href=\"/s\">Consumer Cyclical</a></td><td>Stocks</td><td>NYSE</td></tr>\
<tr><td>x</td><td>y</td><td>z</td><td>w</td></tr>\
<tr><td><a data-symbol=\"EUR=X\">EUR=X</a></td><td>EUR/USD</td><td>1.1</td><td>-</td>\
<td>Currencies</td><td>CCY</td></tr>\
</tbody></table></body></html>";

#[test]
fn insert_twice_is_duplicate() {
    let mut c = Catalog::new();
    assert_eq!(c.insert(rec("AAPL", "Apple Inc.", "Technology", "Stocks", "NASDAQ")), Ok(()));
    assert_eq!(
        c.insert(rec("AAPL", "Other", "Energy", "ETFs", "NYSE")),
        Err(CatalogError::DuplicateKey)
    );
    assert_eq!(c.count_all(), 1);
    assert_eq!(get_symbol(&c, "AAPL").unwrap().name, "Apple Inc.");
}

#[test]
fn unfiltered_query_is_whole_catalog() {
    let c = sample();
    let all = get_symbols(&c, AssetClass::All, Category::All, Exchange::All);
    assert_eq!(all.len(), get_symbols_count(&c));
    let names: Vec<&str> = all.iter().map(|s| s.symbol.as_str()).collect();
    assert_eq!(names, vec!["AAPL", "MSFT", "XOM", "SPY", "QQQ", "PINE"]);
}

#[test]
fn filtered_query_keeps_only_matches() {
    let c = sample();
    let etfs = get_symbols(&c, AssetClass::ETFs, Category::All, Exchange::All);
    assert_eq!(etfs.len(), 2);
    assert!(etfs.iter().all(|s| s.asset_class == "ETFs"));
    let tech = get_symbols(&c, AssetClass::Stocks, Category::Technology, Exchange::NASDAQ);
    let names: Vec<&str> = tech.iter().map(|s| s.symbol.as_str()).collect();
    assert_eq!(names, vec!["AAPL", "MSFT"]);
    let none = get_symbols(&c, AssetClass::Futures, Category::All, Exchange::All);
    assert!(none.is_empty());
    let nyse = get_symbols(&c, AssetClass::All, Category::All, Exchange::NYSE);
    assert_eq!(nyse.len(), 1);
    assert_eq!(nyse[0].symbol, "XOM");
}

#[test]
fn search_apple_equity() {
    let c = sample();
    let r = search_symbols(&c, "Apple", "Equity").unwrap();
    assert!(r.contains(&("AAPL".to_string(), "Apple Inc.".to_string())));
    assert!(r.contains(&("PINE".to_string(), "Pineapple Holdings".to_string())));
    assert_eq!(r.len(), 2);
    let by_symbol = search_symbols(&c, "msf", "Equity").unwrap();
    assert_eq!(by_symbol, vec![("MSFT".to_string(), "Microsoft Corporation".to_string())]);
    let etf = search_symbols(&c, "apple", "ETF").unwrap();
    assert!(etf.is_empty());
}

#[test]
fn search_unknown_label_is_configuration_error() {
    let c = sample();
    assert_eq!(search_symbols(&c, "Apple", "Bond"), Err(CatalogError::ConfigurationError));
    assert_eq!(asset_class_for_label("Mutual Fund"), Some(AssetClass::MutualFunds));
    assert_eq!(asset_class_for_label("Crypto"), Some(AssetClass::Cryptocurrencies));
    assert_eq!(asset_class_for_label("equity"), None);
}

#[test]
fn hit_is_decided_on_folded_text() {
    assert!(is_hit_folded("app", "aapl", "apple inc."));
    assert!(is_hit_folded("aap", "aapl", "x"));
    assert!(!is_hit_folded("zzz", "aapl", "apple inc."));
    assert!(is_hit_folded("", "a", "b"));
}

#[test]
fn ingested_name_is_decoded() {
    let mut c = Catalog::new();
    let incoming = vec![rec("BKS", "Barnes &amp; Noble", "Consumer Cyclical", "Stocks", "NYSE")];
    assert_eq!(ingest_records(&mut c, &incoming), 1);
    let s = get_symbol(&c, "BKS").unwrap();
    assert_eq!(s.name, "Barnes & Noble");
    assert_eq!(s.category, "Consumer Cyclical");
    let d = stored_record(&rec("T", "AT&amp;T &lt;x&gt;", "", "", ""));
    assert_eq!(d.name, "AT&T <x>");
}

#[test]
fn ingesting_twice_adds_nothing() {
    let mut c = Catalog::new();
    assert_eq!(ingest_page(&mut c, PAGE), 2);
    let once = c.count_all();
    assert_eq!(ingest_page(&mut c, PAGE), 0);
    assert_eq!(c.count_all(), once);
    assert_eq!(once, 2);
}

#[test]
fn short_row_is_skipped() {
    let rows = vec![
        row(&["<a data-symbol=\"AAPL\">AAPL</a>", "Apple Inc.", "1", "<a>Technology</a>", "Stocks", "NASDAQ"]),
        row(&["a", "b", "c", "d"]),
    ];
    let r = records_from_cells(&rows);
    assert_eq!(r.len(), 1);
    assert_eq!(r[0].symbol, "AAPL");
    assert_eq!(r[0].category, "Technology");
}

#[test]
fn parse_page_maps_columns() {
    let r = parse_listing(PAGE);
    assert_eq!(r.len(), 2);
    assert_eq!(r[0].symbol, "BKS");
    assert_eq!(r[0].name, "Barnes &amp; Noble");
    assert_eq!(r[0].category, "Consumer Cyclical");
    assert_eq!(r[0].asset_class, "Stocks");
    assert_eq!(r[0].exchange, "NYSE");
    assert_eq!(r[1].symbol, "EUR=X");
    assert_eq!(r[1].category, "N/A");
}

#[test]
fn row_without_link_has_empty_symbol() {
    let r = record_from_cells(&row(&["plain", "Name", "", "none", "ETFs", "NYSE"]));
    assert_eq!(r.symbol, "");
    assert_eq!(r.category, "N/A");
    assert_eq!(r.name, "Name");
}

#[test]
fn link_without_symbol_attribute_gives_empty_symbol() {
    let r = record_from_cells(&row(&[
        "  <a href=\"/q\">AAPL</a> ",
        " Apple Inc. ",
        "",
        " <a href=\"/s\"> Technology </a>",
        "Stocks\n",
        " NASDAQ",
    ]));
    assert_eq!(r.symbol, "");
    assert_eq!(r.name, "Apple Inc.");
    assert_eq!(r.category, "Technology");
    assert_eq!(r.asset_class, "Stocks");
    assert_eq!(r.exchange, "NASDAQ");
}

#[test]
fn failed_fetches_spoil_no_page() {
    let mut c = Catalog::new();
    assert!(update_database(&mut c, &vec![None, None]) == vec![0, 1]);
    assert_eq!(c.count_all(), 0);
    let failed = update_database(&mut c, &vec![None, Some(PAGE.to_string())]);
    assert_eq!(failed, vec![0]);
    assert_eq!(c.count_all(), 2);
}

#[test]
fn empty_page_yields_nothing() {
    assert!(parse_listing("").is_empty());
    assert!(records_from_cells(&Vec::new()).is_empty());
}

#[test]
fn lookup_missing_symbol() {
    let c = sample();
    assert_eq!(get_symbol(&c, "NOPE").unwrap_err(), CatalogError::NotFound);
    assert!(c.contains_symbol("SPY"));
    assert!(!c.contains_symbol("spy"));
    assert_eq!(c.position("QQQ"), Some(4));
}

#[test]
fn distinct_values_once_each() {
    let c = sample();
    let mut ex = get_distinct_exchanges(&c);
    ex.sort();
    assert_eq!(ex, vec!["NASDAQ", "NYSE", "NYSEArca", "OTC"]);
    let mut cats = get_distinct_categories(&c);
    cats.sort();
    assert_eq!(cats, vec!["Consumer Defensive", "Energy", "N/A", "Technology"]);
    let mut ac = get_distinct_asset_classes(&c);
    ac.sort();
    assert_eq!(ac, vec!["ETFs", "Stocks"]);
    assert!(get_distinct_exchanges(&Catalog::new()).is_empty());
}

#[test]
fn query_all_with_predicates() {
    let c = sample();
    assert_eq!(c.query_all(&Vec::new()).len(), 6);
    let p = vec![
        Predicate { column: Column::Exchange, values: vec!["NASDAQ".to_string(), "OTC".to_string()] },
        Predicate { column: Column::Category, values: vec!["N/A".to_string(), "Consumer Defensive".to_string()] },
    ];
    let r = c.query_all(&p);
    let names: Vec<&str> = r.iter().map(|s| s.symbol.as_str()).collect();
    assert_eq!(names, vec!["QQQ", "PINE"]);
    let none = vec![Predicate { column: Column::Symbol, values: Vec::new() }];
    assert!(c.query_all(&none).is_empty());
}

#[test]
fn columns_of_catalog() {
    let c = sample();
    let df = get_symbols_df(&c);
    assert_eq!(df.symbol, vec!["AAPL", "MSFT", "XOM", "SPY", "QQQ", "PINE"]);
    assert_eq!(df.exchange[3], "NYSEArca");
    assert_eq!(df.name.len(), 6);
    assert_eq!(df.category.len(), 6);
    assert_eq!(df.asset_class[4], "ETFs");
}

#[test]
fn expand_values() {
    let known = vec!["NYSE".to_string(), "LSE".to_string()];
    assert_eq!(Exchange::All.expand(&known), known);
    assert_eq!(Exchange::NASDAQ.expand(&known), vec!["NASDAQ".to_string()]);
    assert_eq!(Category::RealEstate.text(), "Real Estate");
    assert_eq!(AssetClass::MutualFunds.text(), "Mutual Funds");
}

#[test]
fn refresh_rebuilds_from_pages() {
    let mut c = sample();
    let failed = update_database(&mut c, &vec![Some(PAGE.to_string()), None, Some(PAGE.to_string()), None]);
    assert_eq!(failed, vec![1, 3]);
    assert_eq!(c.count_all(), 2);
    assert!(!c.contains_symbol("AAPL"));
    assert_eq!(get_symbol(&c, "BKS").unwrap().name, "Barnes & Noble");
}

#[test]
fn listing_addresses() {
    assert_eq!(
        listing_url("etf", "Q"),
        "https://finance.yahoo.com/lookup/etf?s=Q&t=A&b=0&c=5000"
    );
    assert_eq!(sectors().len(), 6);
    let p = prefixes();
    assert_eq!(p.len(), 36);
    assert_eq!(p[0], "A");
    assert_eq!(p[35], "9");
    let u = sweep_urls();
    assert_eq!(u.len(), 216);
    assert_eq!(u[0], "https://finance.yahoo.com/lookup/equity?s=A&t=A&b=0&c=5000");
    assert_eq!(u[215], "https://finance.yahoo.com/lookup/currency?s=9&t=A&b=0&c=5000");
}

#[test]
fn first_access_steps() {
    assert_eq!(init_step(true, true), InitStep::OpenExisting);
    assert_eq!(init_step(false, false), InitStep::Download);
    assert_eq!(init_step(false, true), InitStep::Rebuild);
}

#[test]
fn new_symbol_is_empty() {
    let s = Symbol::new();
    assert_eq!(s.symbol, "");
    assert_eq!(s.name, "");
    assert_eq!(s.category, "");
    assert_eq!(s.asset_class, "");
    assert_eq!(s.exchange, "");
}

#[test]
fn query_statement_and_parameters() {
    let p = vec![
        Predicate { column: Column::AssetClass, values: vec!["ETFs".to_string()] },
        Predicate { column: Column::Exchange, values: vec!["NYSE".to_string(), "NASDAQ".to_string()] },
        Predicate { column: Column::Category, values: Vec::new() },
    ];
    let (sql, params) = build_query(&p);
    assert_eq!(
        sql,
        "SELECT * FROM symbols WHERE asset_class IN (?) AND exchange IN (?,?) AND category IN ()"
    );
    assert_eq!(params, vec!["ETFs", "NYSE", "NASDAQ"]);
    let (all, none) = build_query(&Vec::new());
    assert_eq!(all, "SELECT * FROM symbols");
    assert!(none.is_empty());
    assert_eq!(column_text(Column::AssetClass), "asset_class");
}
