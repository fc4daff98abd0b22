use vstd::prelude::*;

verus! {

/// The text of each string of a sequence.
pub open spec fn strs(v: Seq<String>) -> Seq<Seq<char>> {
    v.map_values(|s: String| s@)
}

/// Appending a string appends its text.
pub proof fn lemma_strs_push(v: Seq<String>, s: String)
    ensures
        strs(v.push(s)) == strs(v).push(s@),
{
    assert forall|k: int| 0 <= k < v.len() + 1 implies strs(v.push(s))[k] == strs(v).push(s@)[k] by {
        if k < v.len() {
            assert(v.push(s)[k] == v[k]);
        }
    }
    assert(strs(v.push(s)) =~= strs(v).push(s@));
}

/// A copy of a vector of strings.
pub fn clone_all(v: &Vec<String>) -> (r: Vec<String>)
    ensures
        strs(r@) == strs(v@),
{
    let mut r: Vec<String> = Vec::new();
    let mut i: usize = 0;
    while i < v.len()
        invariant
            i <= v@.len(),
            r@.len() == i,
            strs(r@) == strs(v@).subrange(0, i as int),
        decreases v@.len() - i,
    {
        let ghost before = r@;
        let c = v[i].clone();
        r.push(c);
        proof {
            assert(r@ == before.push(v@[i as int]));
            assert forall|k: int| 0 <= k < i + 1 implies strs(r@)[k] == strs(v@)[k] by {
                if k < i {
                    assert(strs(before)[k] == strs(v@).subrange(0, i as int)[k]);
                }
            }
            assert(strs(r@) =~= strs(v@).subrange(0, i + 1));
        }
        i += 1;
    }
    proof {
        assert(strs(v@).subrange(0, v@.len() as int) =~= strs(v@));
    }
    r
}

/// The coarse classes of instruments.
#[derive(Debug, Clone, Copy, PartialEq, Eq)]
pub enum AssetClass {
    All,
    Stocks,
    ETFs,
    MutualFunds,
    Indices,
    Futures,
    Currencies,
    Cryptocurrencies,
}

impl AssetClass {
    /// The text stored in the catalog for a concrete value (empty for `All`).
    pub open spec fn spec_text(self) -> Seq<char> {
        match self {
            AssetClass::All => Seq::<char>::empty(),
            AssetClass::Stocks => "Stocks"@,
            AssetClass::ETFs => "ETFs"@,
            AssetClass::MutualFunds => "Mutual Funds"@,
            AssetClass::Indices => "Indices"@,
            AssetClass::Futures => "Futures"@,
            AssetClass::Currencies => "Currencies"@,
            AssetClass::Cryptocurrencies => "Cryptocurrencies"@,
        }
    }

    /// The text stored in the catalog for a concrete value (empty for `All`).
    pub fn text(&self) -> (r: String)
        ensures
            r@ == self.spec_text(),
    {
        match self {
            AssetClass::All => String::new(),
            AssetClass::Stocks => String::from_str("Stocks"),
            AssetClass::ETFs => String::from_str("ETFs"),
            AssetClass::MutualFunds => String::from_str("Mutual Funds"),
            AssetClass::Indices => String::from_str("Indices"),
            AssetClass::Futures => String::from_str("Futures"),
            AssetClass::Currencies => String::from_str("Currencies"),
            AssetClass::Cryptocurrencies => String::from_str("Cryptocurrencies"),
        }
    }

    /// The values that a filter on this dimension admits: `known`, the
    /// values present in the catalog, for `All`, else the value's own text.
    pub fn expand(&self, known: &Vec<String>) -> (r: Vec<String>)
        ensures
            *self == AssetClass::All ==> strs(r@) == strs(known@),
            *self != AssetClass::All ==> strs(r@) == seq![self.spec_text()],
    {
        match self {
            AssetClass::All => clone_all(known),
            _ => {
                let mut r: Vec<String> = Vec::new();
                r.push(self.text());
                proof {
                    assert(strs(r@) =~= seq![self.spec_text()]);
                }
                r
            },
        }
    }
}

/// The sectors that classify an instrument.
#[derive(Debug, Clone, Copy, PartialEq, Eq)]
pub enum Category {
    All,
    BasicMaterials,
    CommunicationServices,
    ConsumerCyclical,
    ConsumerDefensive,
    Energy,
    FinancialServices,
    Healthcare,
    Industrials,
    RealEstate,
    Technology,
    Utilities,
    NotAvailable,
}

impl Category {
    /// The text stored in the catalog for a concrete value (empty for `All`).
    pub open spec fn spec_text(self) -> Seq<char> {
        match self {
            Category::All => Seq::<char>::empty(),
            Category::BasicMaterials => "Basic Materials"@,
            Category::CommunicationServices => "Communication Services"@,
            Category::ConsumerCyclical => "Consumer Cyclical"@,
            Category::ConsumerDefensive => "Consumer Defensive"@,
            Category::Energy => "Energy"@,
            Category::FinancialServices => "Financial Services"@,
            Category::Healthcare => "Healthcare"@,
            Category::Industrials => "Industrials"@,
            Category::RealEstate => "Real Estate"@,
            Category::Technology => "Technology"@,
            Category::Utilities => "Utilities"@,
            Category::NotAvailable => "N/A"@,
        }
    }

    /// The text stored in the catalog for a concrete value (empty for `All`).
    pub fn text(&self) -> (r: String)
        ensures
            r@ == self.spec_text(),
    {
        match self {
            Category::All => String::new(),
            Category::BasicMaterials => String::from_str("Basic Materials"),
            Category::CommunicationServices => String::from_str("Communication Services"),
            Category::ConsumerCyclical => String::from_str("Consumer Cyclical"),
            Category::ConsumerDefensive => String::from_str("Consumer Defensive"),
            Category::Energy => String::from_str("Energy"),
            Category::FinancialServices => String::from_str("Financial Services"),
            Category::Healthcare => String::from_str("Healthcare"),
            Category::Industrials => String::from_str("Industrials"),
            Category::RealEstate => String::from_str("Real Estate"),
            Category::Technology => String::from_str("Technology"),
            Category::Utilities => String::from_str("Utilities"),
            Category::NotAvailable => String::from_str("N/A"),
        }
    }

    /// The values that a filter on this dimension admits: `known`, the
    /// values present in the catalog, for `All`, else the value's own text.
    pub fn expand(&self, known: &Vec<String>) -> (r: Vec<String>)
        ensures
            *self == Category::All ==> strs(r@) == strs(known@),
            *self != Category::All ==> strs(r@) == seq![self.spec_text()],
    {
        match self {
            Category::All => clone_all(known),
            _ => {
                let mut r: Vec<String> = Vec::new();
                r.push(self.text());
                proof {
                    assert(strs(r@) =~= seq![self.spec_text()]);
                }
                r
            },
        }
    }
}

/// The venues on which instruments are listed.
#[derive(Debug, Clone, Copy, PartialEq, Eq)]
pub enum Exchange {
    All,
    NASDAQ,
    NYSE,
    NYSEArca,
    AMEX,
    OTC,
    LSE,
    TSX,
    XETRA,
    Paris,
    Tokyo,
    HongKong,
    CCY,
    CCC,
    CME,
}

impl Exchange {
    /// The text stored in the catalog for a concrete value (empty for `All`).
    pub open spec fn spec_text(self) -> Seq<char> {
        match self {
            Exchange::All => Seq::<char>::empty(),
            Exchange::NASDAQ => "NASDAQ"@,
            Exchange::NYSE => "NYSE"@,
            Exchange::NYSEArca => "NYSEArca"@,
            Exchange::AMEX => "AMEX"@,
            Exchange::OTC => "OTC"@,
            Exchange::LSE => "LSE"@,
            Exchange::TSX => "TSX"@,
            Exchange::XETRA => "XETRA"@,
            Exchange::Paris => "Paris"@,
            Exchange::Tokyo => "Tokyo"@,
            Exchange::HongKong => "Hong Kong"@,
            Exchange::CCY => "CCY"@,
            Exchange::CCC => "CCC"@,
            Exchange::CME => "CME"@,
        }
    }

    /// The text stored in the catalog for a concrete value (empty for `All`).
    pub fn text(&self) -> (r: String)
        ensures
            r@ == self.spec_text(),
    {
        match self {
            Exchange::All => String::new(),
            Exchange::NASDAQ => String::from_str("NASDAQ"),
            Exchange::NYSE => String::from_str("NYSE"),
            Exchange::NYSEArca => String::from_str("NYSEArca"),
            Exchange::AMEX => String::from_str("AMEX"),
            Exchange::OTC => String::from_str("OTC"),
            Exchange::LSE => String::from_str("LSE"),
            Exchange::TSX => String::from_str("TSX"),
            Exchange::XETRA => String::from_str("XETRA"),
            Exchange::Paris => String::from_str("Paris"),
            Exchange::Tokyo => String::from_str("Tokyo"),
            Exchange::HongKong => String::from_str("Hong Kong"),
            Exchange::CCY => String::from_str("CCY"),
            Exchange::CCC => String::from_str("CCC"),
            Exchange::CME => String::from_str("CME"),
        }
    }

    /// The values that a filter on this dimension admits: `known`, the
    /// values present in the catalog, for `All`, else the value's own text.
    pub fn expand(&self, known: &Vec<String>) -> (r: Vec<String>)
        ensures
            *self == Exchange::All ==> strs(r@) == strs(known@),
            *self != Exchange::All ==> strs(r@) == seq![self.spec_text()],
    {
        match self {
            Exchange::All => clone_all(known),
            _ => {
                let mut r: Vec<String> = Vec::new();
                r.push(self.text());
                proof {
                    assert(strs(r@) =~= seq![self.spec_text()]);
                }
                r
            },
        }
    }
}

} // verus!
