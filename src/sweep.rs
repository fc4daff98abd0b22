use vstd::prelude::*;
use crate::keys::strs;

verus! {

/// The listing endpoint that the sweep queries.
pub open spec fn listing_base() -> Seq<char> {
    "https://finance.yahoo.com/lookup/"@
}

/// The address of the listing page for a sector and a search prefix, asking
/// for all matches in one large page.
pub open spec fn url_of(sector: Seq<char>, prefix: Seq<char>) -> Seq<char> {
    listing_base() + sector + "?s="@ + prefix + "&t=A&b=0&c=5000"@
}

/// The sectors that the sweep covers, in order.
pub open spec fn sector_names() -> Seq<Seq<char>> {
    seq!["equity"@, "mutualfund"@, "etf"@, "index"@, "future"@, "currency"@]
}

/// The one-character search prefixes, A to Z then 0 to 9.
pub open spec fn prefix_names() -> Seq<Seq<char>> {
    seq!["A"@, "B"@, "C"@, "D"@, "E"@, "F"@, "G"@, "H"@, "I"@, "J"@, "K"@, "L"@, "M"@, "N"@, "O"@, "P"@, "Q"@, "R"@, "S"@, "T"@, "U"@, "V"@, "W"@, "X"@, "Y"@, "Z"@, "0"@, "1"@, "2"@, "3"@, "4"@, "5"@, "6"@, "7"@, "8"@, "9"@]
}

/// The address of the listing page for a sector and a search prefix.
pub fn listing_url(sector: &str, prefix: &str) -> (r: String)
    ensures
        r@ == url_of(sector@, prefix@),
{
    let mut r = String::from_str("https://finance.yahoo.com/lookup/");
    r.append(sector);
    r.append("?s=");
    r.append(prefix);
    r.append("&t=A&b=0&c=5000");
    r
}

/// The sectors that the sweep covers, in order.
pub fn sectors() -> (r: Vec<String>)
    ensures
        strs(r@) == sector_names(),
{
    let mut r: Vec<String> = Vec::new();
    r.push(String::from_str("equity"));
    r.push(String::from_str("mutualfund"));
    r.push(String::from_str("etf"));
    r.push(String::from_str("index"));
    r.push(String::from_str("future"));
    r.push(String::from_str("currency"));
    proof {
        assert(strs(r@) =~= sector_names());
    }
    r
}

/// The one-character search prefixes, A to Z then 0 to 9.
pub fn prefixes() -> (r: Vec<String>)
    ensures
        strs(r@) == prefix_names(),
{
    let mut r: Vec<String> = Vec::new();
    r.push(String::from_str("A"));
    r.push(String::from_str("B"));
    r.push(String::from_str("C"));
    r.push(String::from_str("D"));
    r.push(String::from_str("E"));
    r.push(String::from_str("F"));
    r.push(String::from_str("G"));
    r.push(String::from_str("H"));
    r.push(String::from_str("I"));
    r.push(String::from_str("J"));
    r.push(String::from_str("K"));
    r.push(String::from_str("L"));
    r.push(String::from_str("M"));
    r.push(String::from_str("N"));
    r.push(String::from_str("O"));
    r.push(String::from_str("P"));
    r.push(String::from_str("Q"));
    r.push(String::from_str("R"));
    r.push(String::from_str("S"));
    r.push(String::from_str("T"));
    r.push(String::from_str("U"));
    r.push(String::from_str("V"));
    r.push(String::from_str("W"));
    r.push(String::from_str("X"));
    r.push(String::from_str("Y"));
    r.push(String::from_str("Z"));
    r.push(String::from_str("0"));
    r.push(String::from_str("1"));
    r.push(String::from_str("2"));
    r.push(String::from_str("3"));
    r.push(String::from_str("4"));
    r.push(String::from_str("5"));
    r.push(String::from_str("6"));
    r.push(String::from_str("7"));
    r.push(String::from_str("8"));
    r.push(String::from_str("9"));
    proof {
        assert(strs(r@) =~= prefix_names());
    }
    r
}

/// Every listing address of a full sweep: each sector, and within it each
/// prefix, in order.
pub fn sweep_urls() -> (r: Vec<String>)
    ensures
        r@.len() == sector_names().len() * prefix_names().len(),
        forall|s: int, p: int|
            0 <= s < sector_names().len() && 0 <= p < prefix_names().len() ==> #[trigger] r@[s
                * prefix_names().len() + p]@ == url_of(sector_names()[s], prefix_names()[p]),
{
    let ss = sectors();
    let ps = prefixes();
    let ghost np = prefix_names().len();
    let mut r: Vec<String> = Vec::new();
    let mut s: usize = 0;
    while s < ss.len()
        invariant
            s <= ss@.len(),
            strs(ss@) == sector_names(),
            strs(ps@) == prefix_names(),
            np == ps@.len(),
            r@.len() == s * np,
            forall|a: int, p: int|
                0 <= a < s && 0 <= p < np ==> #[trigger] r@[a * np + p]@ == url_of(
                    sector_names()[a],
                    prefix_names()[p],
                ),
        decreases ss@.len() - s,
    {
        let mut p: usize = 0;
        while p < ps.len()
            invariant
                s < ss@.len(),
                p <= ps@.len(),
                strs(ss@) == sector_names(),
                strs(ps@) == prefix_names(),
                np == ps@.len(),
                r@.len() == s * np + p,
                forall|a: int, q: int|
                    0 <= a < s && 0 <= q < np ==> #[trigger] r@[a * np + q]@ == url_of(
                        sector_names()[a],
                        prefix_names()[q],
                    ),
                forall|q: int| 0 <= q < p ==> #[trigger] r@[s * np + q]@ == url_of(sector_names()[s as int], prefix_names()[q]),
            decreases ps@.len() - p,
        {
            let u = listing_url(ss[s].as_str(), ps[p].as_str());
            proof {
                assert(ss@[s as int]@ == sector_names()[s as int]);
                assert(ps@[p as int]@ == prefix_names()[p as int]);
            }
            let ghost before = r@;
            r.push(u);
            proof {
                assert forall|a: int, q: int| 0 <= a < s && 0 <= q < np implies #[trigger] r@[a * np + q]@
                    == url_of(sector_names()[a], prefix_names()[q]) by {
                    assert(a * np + q < s * np) by (nonlinear_arith)
                        requires 0 <= a < s, 0 <= q < np;
                    assert(r@[a * np + q] == before[a * np + q]);
                }
            }
            p += 1;
        }
        proof {
            assert((s + 1) * np == s * np + np) by (nonlinear_arith);
        }
        s += 1;
    }
    r
}

/// What the first access to the catalog does.
#[derive(Debug, Clone, Copy, PartialEq, Eq)]
pub enum InitStep {
    /// Open the store file that is already there.
    OpenExisting,
    /// Fetch the prebuilt snapshot.
    Download,
    /// Build the store by a full sweep.
    Rebuild,
}

/// The next step of the first access: open a store file that exists; else
/// download the snapshot; if the download failed, rebuild by a sweep.
pub fn init_step(file_exists: bool, download_failed: bool) -> (r: InitStep)
    ensures
        file_exists ==> r == InitStep::OpenExisting,
        !file_exists && !download_failed ==> r == InitStep::Download,
        !file_exists && download_failed ==> r == InitStep::Rebuild,
{
    if file_exists {
        InitStep::OpenExisting
    } else if download_failed {
        InitStep::Rebuild
    } else {
        InitStep::Download
    }
}

} // verus!
