use vstd::prelude::*;

verus! {

/// The value of a symbol record: its five text fields.
pub struct SymbolRec {
    pub symbol: Seq<char>,
    pub name: Seq<char>,
    pub category: Seq<char>,
    pub asset_class: Seq<char>,
    pub exchange: Seq<char>,
}

/// One instrument of the catalog.
#[derive(Debug, Clone)]
pub struct Symbol {
    pub symbol: String,
    pub name: String,
    pub category: String,
    pub asset_class: String,
    pub exchange: String,
}

impl View for Symbol {
    type V = SymbolRec;

    open spec fn view(&self) -> SymbolRec {
        SymbolRec {
            symbol: self.symbol@,
            name: self.name@,
            category: self.category@,
            asset_class: self.asset_class@,
            exchange: self.exchange@,
        }
    }
}

/// The values of a sequence of records.
pub open spec fn recs(v: Seq<Symbol>) -> Seq<SymbolRec> {
    v.map_values(|s: Symbol| s@)
}

impl Symbol {
    /// A record whose five fields are empty.
    pub fn new() -> (r: Symbol)
        ensures
            r.symbol@ == Seq::<char>::empty(),
            r.name@ == Seq::<char>::empty(),
            r.category@ == Seq::<char>::empty(),
            r.asset_class@ == Seq::<char>::empty(),
            r.exchange@ == Seq::<char>::empty(),
    {
        Symbol {
            symbol: String::new(),
            name: String::new(),
            category: String::new(),
            asset_class: String::new(),
            exchange: String::new(),
        }
    }

    /// A copy whose fields hold the same text.
    pub fn duplicate(&self) -> (r: Symbol)
        ensures
            r@ == self@,
    {
        Symbol {
            symbol: self.symbol.clone(),
            name: self.name.clone(),
            category: self.category.clone(),
            asset_class: self.asset_class.clone(),
            exchange: self.exchange.clone(),
        }
    }
}

} // verus!
