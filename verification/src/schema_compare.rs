//! Whether two tables have columns that can be compared.

use vstd::prelude::*;

use crate::collections;
use crate::collections::{NameSet, TextMap};
use crate::outside;
use crate::text;
use crate::types::SchemaComparisonResult;

verus! {

/// A table of a schema: the type of each of its columns.
#[derive(Debug)]
pub struct PgTable {
    pub columns: TextMap<String>,
}

/// What a comparison of two tables says.
pub enum SchemaVerdict {
    Match,
    TargetSuperset(Seq<Seq<char>>),
    Excluded,
    Mismatch(Seq<char>),
}

/// What a result says.
pub open spec fn verdict_of(result: SchemaComparisonResult) -> SchemaVerdict {
    match result {
        SchemaComparisonResult::Match => SchemaVerdict::Match,
        SchemaComparisonResult::TargetSuperset { extra_columns } => SchemaVerdict::TargetSuperset(
            text::texts(extra_columns@),
        ),
        SchemaComparisonResult::Excluded => SchemaVerdict::Excluded,
        SchemaComparisonResult::Mismatch { message } => SchemaVerdict::Mismatch(message@),
    }
}

/// Whether a column is not among those of a table.
pub open spec fn is_lacking(table: PgTable) -> spec_fn(Seq<char>) -> bool {
    |name: Seq<char>| !table.columns@.contains_key(name)
}

/// The columns of one table that another lacks.
pub open spec fn lacking_columns(of: PgTable, other: PgTable) -> Seq<Seq<char>> {
    of.columns.order().filter(is_lacking(other))
}

/// Whether a column has another type in another table.
pub open spec fn is_retyped(of: PgTable, other: PgTable) -> spec_fn(Seq<char>) -> bool {
    |name: Seq<char>| other.columns@.contains_key(name) && of.columns@[name]@ != other.columns@[name]@
}

/// What is said of a column whose types differ.
pub open spec fn retyped_message(of: PgTable, other: PgTable) -> spec_fn(Seq<char>) -> Seq<char> {
    |name: Seq<char>|
        "column '"@ + name + "': type '"@ + of.columns@[name]@ + "' vs '"@ + other.columns@[name]@ + "'"@
}

/// What is said of all columns whose types differ.
pub open spec fn retyped_messages(of: PgTable, other: PgTable) -> Seq<Seq<char>> {
    of.columns.order().filter(is_retyped(of, other)).map_values(retyped_message(of, other))
}

/// What a comparison of two tables says: where the target lacks a column, or has one with
/// another type, the tables do not match, unless the table is excluded.
pub open spec fn schema_verdict(ref_table: PgTable, target_table: PgTable, is_excluded: bool) -> SchemaVerdict {
    let missing = lacking_columns(ref_table, target_table);
    let retyped = retyped_messages(ref_table, target_table);
    let extra = lacking_columns(target_table, ref_table);
    if missing.len() > 0 || retyped.len() > 0 {
        if is_excluded {
            SchemaVerdict::Excluded
        } else if missing.len() > 0 {
            SchemaVerdict::Mismatch(
                "Reference columns missing in target: "@ + text::joined(missing, ", "@),
            )
        } else {
            SchemaVerdict::Mismatch("Type mismatches: "@ + text::joined(retyped, "; "@))
        }
    } else if extra.len() > 0 {
        SchemaVerdict::TargetSuperset(extra)
    } else {
        SchemaVerdict::Match
    }
}

/// The columns of one table that another lacks.
fn find_lacking(of: &PgTable, other: &PgTable) -> (r: Vec<String>)
    ensures
        text::texts(r@) == lacking_columns(*of, *other),
{
    let n: usize = of.columns.len();
    let ghost order = of.columns.order();
    let ghost keep = is_lacking(*other);
    let mut names: Vec<String> = Vec::new();
    proof {
        reveal(Seq::filter);
        assert(text::texts(names@) =~= order.take(0).filter(keep));
    }
    for i in 0..n
        invariant
            n == order.len(),
            order == of.columns.order(),
            keep == is_lacking(*other),
            text::texts(names@) == order.take(i as int).filter(keep),
    {
        let ghost before = names@;
        let name = of.columns.key_at(i);
        proof {
            assert(order.take(i + 1) =~= order.take(i as int).push(name@));
            order.take(i as int).lemma_filter_push(name@, keep);
        }
        if !other.columns.contains_key(name) {
            names.push(name.to_owned());
            assert(text::texts(names@) =~= text::texts(before).push(name@));
        }
    }
    assert(order.take(n as int) =~= order);
    names
}

/// What is said of the columns whose types differ.
fn find_retyped(of: &PgTable, other: &PgTable) -> (r: Vec<String>)
    ensures
        text::texts(r@) == retyped_messages(*of, *other),
{
    let n: usize = of.columns.len();
    let ghost order = of.columns.order();
    let ghost keep = is_retyped(*of, *other);
    let ghost said = retyped_message(*of, *other);
    let mut messages: Vec<String> = Vec::new();
    proof {
        reveal(Seq::filter);
        assert(text::texts(messages@) =~= order.take(0).filter(keep).map_values(said));
    }
    for i in 0..n
        invariant
            n == order.len(),
            order == of.columns.order(),
            keep == is_retyped(*of, *other),
            said == retyped_message(*of, *other),
            text::texts(messages@) == order.take(i as int).filter(keep).map_values(said),
    {
        let ghost before = messages@;
        let name = of.columns.key_at(i);
        let own = of.columns.value_at(i);
        let ghost less = order.take(i as int);
        proof {
            assert(order.take(i + 1) =~= less.push(name@));
            less.lemma_filter_push(name@, keep);
        }
        if let Some(theirs) = other.columns.get(name) {
            if !text::same_text(own.as_str(), theirs.as_str()) {
                let mut message = "column '".to_owned();
                message.append(name);
                message.append("': type '");
                message.append(own.as_str());
                message.append("' vs '");
                message.append(theirs.as_str());
                message.append("'");
                messages.push(message);
                proof {
                    assert(message@ =~= said(name@));
                    assert(text::texts(messages@) =~= text::texts(before).push(message@));
                    assert(less.filter(keep).push(name@).map_values(said) =~= less.filter(keep).map_values(
                        said,
                    ).push(said(name@)));
                }
            }
        }
    }
    assert(order.take(n as int) =~= order);
    messages
}

/// Compare the schema of a single table between reference and target.
///
/// Returns a `SchemaComparisonResult` indicating whether schemas match,
/// the target is a superset (has extra columns), the table is excluded, or there is a mismatch.
pub fn compare_table_schema(
    ref_table: &PgTable,
    target_table: &PgTable,
    is_excluded: bool,
) -> (r: SchemaComparisonResult)
    ensures
        verdict_of(r) == schema_verdict(*ref_table, *target_table, is_excluded),
{
    let missing = find_lacking(ref_table, target_table);
    let retyped = find_retyped(ref_table, target_table);
    assert(text::texts(missing@).len() == missing@.len());
    assert(text::texts(retyped@).len() == retyped@.len());
    if missing.len() > 0 {
        if is_excluded {
            return SchemaComparisonResult::Excluded;
        }
        let mut message = "Reference columns missing in target: ".to_owned();
        message.append(text::join(missing.as_slice(), ", ").as_str());
        return SchemaComparisonResult::Mismatch { message };
    }
    if retyped.len() > 0 {
        if is_excluded {
            return SchemaComparisonResult::Excluded;
        }
        let mut message = "Type mismatches: ".to_owned();
        message.append(text::join(retyped.as_slice(), "; ").as_str());
        return SchemaComparisonResult::Mismatch { message };
    }
    let extra_columns = find_lacking(target_table, ref_table);
    assert(text::texts(extra_columns@).len() == extra_columns@.len());
    if extra_columns.len() > 0 {
        return SchemaComparisonResult::TargetSuperset { extra_columns };
    }
    SchemaComparisonResult::Match
}

/// Whether a table is excluded. Case does not matter.
pub open spec fn excludes(exclude_tables: Set<Seq<char>>, table: Seq<char>) -> bool {
    collections::lowered(exclude_tables).contains(outside::lowercase_text(table))
}

/// What is said of a table of the reference, given the tables of the target.
pub open spec fn table_verdict(
    table: Seq<char>,
    ref_table: PgTable,
    target_tables: Map<Seq<char>, PgTable>,
    is_excluded: bool,
) -> SchemaVerdict {
    if target_tables.contains_key(table) {
        schema_verdict(ref_table, target_tables[table], is_excluded)
    } else if is_excluded {
        SchemaVerdict::Excluded
    } else {
        SchemaVerdict::Mismatch("Table '"@ + table + "' not found in target schema"@)
    }
}

/// Compare schemas for all tables between reference and target databases.
///
/// Returns a map of `table_name -> SchemaComparisonResult` for each table of the reference.
pub fn compare_all_schemas(
    ref_tables: &TextMap<PgTable>,
    target_tables: &TextMap<PgTable>,
    exclude_tables: &NameSet,
) -> (r: TextMap<SchemaComparisonResult>)
    ensures
        r.valid(),
        forall|t: Seq<char>| #[trigger] r@.contains_key(t) <==> ref_tables@.contains_key(t),
        forall|t: Seq<char>|
            #[trigger] r@.contains_key(t) ==> verdict_of(r@[t]) == table_verdict(
                t,
                ref_tables@[t],
                target_tables@,
                excludes(exclude_tables@, t),
            ),
{
    let excluded = exclude_tables.to_lowercase();
    let n: usize = ref_tables.len();
    let ghost order = ref_tables.order();
    let mut results: TextMap<SchemaComparisonResult> = TextMap::new();
    for i in 0..n
        invariant
            n == order.len(),
            order == ref_tables.order(),
            ref_tables.valid(),
            excluded@ == collections::lowered(exclude_tables@),
            results.valid(),
            forall|t: Seq<char>| #[trigger] results@.contains_key(t) <==> exists|j: int| 0 <= j < i && #[trigger] order[j] == t,
            forall|t: Seq<char>|
                #[trigger] results@.contains_key(t) ==> verdict_of(results@[t]) == table_verdict(
                    t,
                    ref_tables@[t],
                    target_tables@,
                    excludes(exclude_tables@, t),
                ),
    {
        let ghost before = results@;
        let name = ref_tables.key_at(i);
        let ref_table = ref_tables.value_at(i);
        let is_excluded = excluded.contains(outside::lowercase(name).as_str());
        let result = match target_tables.get(name) {
            None => {
                if is_excluded {
                    SchemaComparisonResult::Excluded
                } else {
                    let mut message = "Table '".to_owned();
                    message.append(name);
                    message.append("' not found in target schema");
                    SchemaComparisonResult::Mismatch { message }
                }
            },
            Some(target_table) => compare_table_schema(ref_table, target_table, is_excluded),
        };
        assert(verdict_of(result) == table_verdict(
            name@,
            ref_tables@[name@],
            target_tables@,
            excludes(exclude_tables@, name@),
        ));
        results.insert(name.to_owned(), result);
        proof {
            assert forall|t: Seq<char>| #[trigger] results@.contains_key(t) implies verdict_of(results@[t])
                == table_verdict(t, ref_tables@[t], target_tables@, excludes(exclude_tables@, t)) by {
                if t != name@ {
                    assert(before.contains_key(t));
                }
            }
        }
    }
    proof {
        assert forall|t: Seq<char>| #[trigger] results@.contains_key(t) <==> ref_tables@.contains_key(t) by {
            if ref_tables@.contains_key(t) {
                assert(order[order.index_of(t)] == t);
            }
            if results@.contains_key(t) {
                let j = choose|j: int| 0 <= j < n && #[trigger] order[j] == t;
                assert(order.contains(t));
            }
        }
    }
    results
}

/// The text by which a result is reported.
pub open spec fn result_text(result: SchemaComparisonResult) -> Seq<char> {
    match result {
        SchemaComparisonResult::Match => "Match"@,
        SchemaComparisonResult::TargetSuperset { extra_columns } => "Target superset (extra: "@
            + text::joined(text::texts(extra_columns@), ", "@) + ")"@,
        SchemaComparisonResult::Excluded => "Excluded"@,
        SchemaComparisonResult::Mismatch { message } => "Mismatch: "@ + message@,
    }
}

/// The text by which a result is reported.
pub fn describe_result(result: &SchemaComparisonResult) -> (r: String)
    ensures
        r@ == result_text(*result),
{
    match result {
        SchemaComparisonResult::Match => "Match".to_owned(),
        SchemaComparisonResult::TargetSuperset { extra_columns } => {
            let mut out = "Target superset (extra: ".to_owned();
            out.append(text::join(extra_columns.as_slice(), ", ").as_str());
            out.append(")");
            out
        },
        SchemaComparisonResult::Excluded => "Excluded".to_owned(),
        SchemaComparisonResult::Mismatch { message } => {
            let mut out = "Mismatch: ".to_owned();
            out.append(message.as_str());
            out
        },
    }
}

/// A table matches itself.
pub proof fn table_matches_itself(table: PgTable, is_excluded: bool)
    requires
        table.columns.valid(),
    ensures
        schema_verdict(table, table, is_excluded) is Match,
{
    let order = table.columns.order();
    lemma_none_kept(order, is_lacking(table));
    lemma_none_kept(order, is_retyped(table, table));
}

/// Two tables match exactly where they have the same columns with the same types; so it does not
/// matter which of them is the reference.
pub proof fn verdict_is_match_where_columns_are_the_same(a: PgTable, b: PgTable, is_excluded: bool)
    requires
        a.columns.valid(),
        b.columns.valid(),
    ensures
        schema_verdict(a, b, is_excluded) is Match <==> schema_verdict(b, a, is_excluded) is Match,
        schema_verdict(a, b, is_excluded) is Match <==> {
            &&& forall|name: Seq<char>| #[trigger] a.columns@.contains_key(name) <==> b.columns@.contains_key(name)
            &&& forall|name: Seq<char>|
                #[trigger] a.columns@.contains_key(name) ==> a.columns@[name]@ == b.columns@[name]@
        },
{
    lemma_match(a, b, is_excluded);
    lemma_match(b, a, is_excluded);
}

proof fn lemma_match(a: PgTable, b: PgTable, is_excluded: bool)
    requires
        a.columns.valid(),
        b.columns.valid(),
    ensures
        schema_verdict(a, b, is_excluded) is Match <==> {
            &&& forall|name: Seq<char>| #[trigger] a.columns@.contains_key(name) <==> b.columns@.contains_key(name)
            &&& forall|name: Seq<char>|
                #[trigger] a.columns@.contains_key(name) ==> a.columns@[name]@ == b.columns@[name]@
        },
{
    let same = {
        &&& forall|name: Seq<char>| #[trigger] a.columns@.contains_key(name) <==> b.columns@.contains_key(name)
        &&& forall|name: Seq<char>|
            #[trigger] a.columns@.contains_key(name) ==> a.columns@[name]@ == b.columns@[name]@
    };
    let of_a = a.columns.order();
    let of_b = b.columns.order();
    if same {
        assert forall|name: Seq<char>| of_a.contains(name) implies !#[trigger] is_lacking(b)(name) by {
            assert(a.columns@.contains_key(name));
        }
        assert forall|name: Seq<char>| of_a.contains(name) implies !#[trigger] is_retyped(a, b)(name) by {
            assert(a.columns@.contains_key(name));
        }
        assert forall|name: Seq<char>| of_b.contains(name) implies !#[trigger] is_lacking(a)(name) by {
            assert(b.columns@.contains_key(name));
            assert(a.columns@.contains_key(name));
        }
        lemma_none_kept(of_a, is_lacking(b));
        lemma_none_kept(of_a, is_retyped(a, b));
        lemma_none_kept(of_b, is_lacking(a));
    }
    if schema_verdict(a, b, is_excluded) is Match {
        assert forall|name: Seq<char>| #[trigger] a.columns@.contains_key(name) implies b.columns@.contains_key(
            name,
        ) && a.columns@[name]@ == b.columns@[name]@ by {
            let i = of_a.index_of(name);
            if !b.columns@.contains_key(name) {
                of_a.lemma_filter_contains(is_lacking(b), i);
            } else if a.columns@[name]@ != b.columns@[name]@ {
                of_a.lemma_filter_contains(is_retyped(a, b), i);
            }
        }
        assert forall|name: Seq<char>| #[trigger] a.columns@.contains_key(name) <==> b.columns@.contains_key(
            name,
        ) by {
            if b.columns@.contains_key(name) && !a.columns@.contains_key(name) {
                let i = of_b.index_of(name);
                of_b.lemma_filter_contains(is_lacking(a), i);
            }
        }
    }
}

/// Nothing is kept of names none of which meets the condition.
proof fn lemma_none_kept(names: Seq<Seq<char>>, keep: spec_fn(Seq<char>) -> bool)
    requires
        forall|name: Seq<char>| names.contains(name) ==> !#[trigger] keep(name),
    ensures
        names.filter(keep).len() == 0,
{
    if names.filter(keep).len() > 0 {
        let name = names.filter(keep)[0];
        names.lemma_filter_pred(keep, 0);
        assert(names.filter(keep).contains(name));
        names.lemma_filter_contains_rev(keep, name);
    }
}

} // verus!
