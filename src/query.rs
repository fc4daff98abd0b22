use vstd::prelude::*;
use crate::catalog::{Column, Predicate};
use crate::keys::strs;

verus! {

/// The name of a column in the store's table.
pub open spec fn column_name(c: Column) -> Seq<char> {
    match c {
        Column::Symbol => "symbol"@,
        Column::Name => "name"@,
        Column::Category => "category"@,
        Column::AssetClass => "asset_class"@,
        Column::Exchange => "exchange"@,
    }
}

/// `n` bound-parameter marks separated by commas.
pub open spec fn placeholders(n: nat) -> Seq<char>
    decreases n,
{
    if n == 0 {
        Seq::empty()
    } else if n == 1 {
        "?"@
    } else {
        placeholders((n - 1) as nat) + ",?"@
    }
}

/// The clause that a predicate compiles to: its column `IN` as many marks as
/// it has values.
pub open spec fn in_clause(c: Column, n: nat) -> Seq<char> {
    column_name(c) + " IN ("@ + placeholders(n) + ")"@
}

/// The clauses of all predicates joined by `AND`.
pub open spec fn conditions(p: Seq<Predicate>) -> Seq<char>
    decreases p.len(),
{
    if p.len() == 0 {
        Seq::empty()
    } else if p.len() == 1 {
        in_clause(p[0].column, p[0].values@.len())
    } else {
        conditions(p.drop_last()) + " AND "@ + in_clause(p.last().column, p.last().values@.len())
    }
}

/// The statement that selects the rows meeting every predicate; with no
/// predicate it selects the whole table.
pub open spec fn sql_of(p: Seq<Predicate>) -> Seq<char> {
    if p.len() == 0 {
        "SELECT * FROM symbols"@
    } else {
        "SELECT * FROM symbols"@ + " WHERE "@ + conditions(p)
    }
}

/// The values bound to the marks, predicate by predicate.
pub open spec fn params_of(p: Seq<Predicate>) -> Seq<Seq<char>>
    decreases p.len(),
{
    if p.len() == 0 {
        Seq::empty()
    } else {
        params_of(p.drop_last()) + strs(p.last().values@)
    }
}

/// The name of a column in the store's table.
pub fn column_text(c: Column) -> (r: String)
    ensures
        r@ == column_name(c),
{
    match c {
        Column::Symbol => String::from_str("symbol"),
        Column::Name => String::from_str("name"),
        Column::Category => String::from_str("category"),
        Column::AssetClass => String::from_str("asset_class"),
        Column::Exchange => String::from_str("exchange"),
    }
}

/// Appends the clause of one predicate.
fn append_clause(out: &mut String, q: &Predicate)
    ensures
        final(out)@ == old(out)@ + in_clause(q.column, q.values@.len()),
{
    let name = column_text(q.column);
    out.append(name.as_str());
    out.append(" IN (");
    let ghost start = out@;
    let n = q.values.len();
    let mut j: usize = 0;
    while j < n
        invariant
            j <= n,
            n == q.values@.len(),
            out@ == start + placeholders(j as nat),
        decreases n - j,
    {
        if j == 0 {
            out.append("?");
        } else {
            out.append(",?");
        }
        proof {
            assert(out@ =~= start + placeholders((j + 1) as nat));
        }
        j += 1;
    }
    out.append(")");
    proof {
        assert(out@ =~= old(out)@ + in_clause(q.column, q.values@.len()));
    }
}

/// The statement and bound values for a list of predicates, each compiled
/// to an `IN` clause over its values and all joined by `AND`. Every value
/// is bound as a parameter, never written into the statement.
pub fn build_query(preds: &Vec<Predicate>) -> (r: (String, Vec<String>))
    ensures
        r.0@ == sql_of(preds@),
        strs(r.1@) == params_of(preds@),
{
    let mut sql = String::from_str("SELECT * FROM symbols");
    let mut params: Vec<String> = Vec::new();
    if preds.len() > 0 {
        sql.append(" WHERE ");
    }
    let ghost head = sql@;
    let mut i: usize = 0;
    while i < preds.len()
        invariant
            i <= preds@.len(),
            preds@.len() > 0 ==> head == "SELECT * FROM symbols"@ + " WHERE "@,
            preds@.len() == 0 ==> head == "SELECT * FROM symbols"@,
            sql@ == head + conditions(preds@.subrange(0, i as int)),
            strs(params@) == params_of(preds@.subrange(0, i as int)),
        decreases preds@.len() - i,
    {
        let q = &preds[i];
        let ghost pre = preds@.subrange(0, i as int + 1);
        proof {
            assert(pre.drop_last() =~= preds@.subrange(0, i as int));
            assert(pre.last() == *q);
        }
        if i > 0 {
            sql.append(" AND ");
        }
        append_clause(&mut sql, q);
        proof {
            if i == 0 {
                assert(pre.len() == 1);
                assert(pre[0] == *q);
            }
            assert(sql@ =~= head + conditions(pre));
        }
        let mut k: usize = 0;
        let ghost base = params@;
        while k < q.values.len()
            invariant
                k <= q.values@.len(),
                strs(params@) == strs(base) + strs(q.values@).subrange(0, k as int),
            decreases q.values@.len() - k,
        {
            let ghost before = params@;
            params.push(q.values[k].clone());
            proof {
                crate::keys::lemma_strs_push(before, q.values@[k as int]);
                assert(strs(params@) =~= strs(base) + strs(q.values@).subrange(0, k + 1));
            }
            k += 1;
        }
        proof {
            assert(strs(q.values@).subrange(0, q.values@.len() as int) =~= strs(q.values@));
        }
        i += 1;
    }
    proof {
        assert(preds@.subrange(0, preds@.len() as int) =~= preds@);
        if preds@.len() > 0 {
            assert(sql@ =~= sql_of(preds@));
        } else {
            assert(conditions(preds@) == Seq::<char>::empty());
            assert(sql@ =~= sql_of(preds@));
        }
    }
    (sql, params)
}

} // verus!
