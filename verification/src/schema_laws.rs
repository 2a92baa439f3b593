//! Laws of schemas: which tables can be compared.

use vstd::prelude::*;

use crate::collections;
use crate::outside;
use crate::schema_compare;
use crate::schema_compare::{PgTable, SchemaVerdict};
use crate::text;
use crate::types::SchemaComparisonResult;

verus! {

/// Whether a column of the reference is not in the target.
pub open spec fn is_absent(reference: PgTable, target: PgTable, name: Seq<char>) -> bool {
    reference.columns@.contains_key(name) && !target.columns@.contains_key(name)
}

/// Whether a column is in both tables, with other types.
pub open spec fn has_two_types(reference: PgTable, target: PgTable, name: Seq<char>) -> bool {
    &&& reference.columns@.contains_key(name)
    &&& target.columns@.contains_key(name)
    &&& reference.columns@[name]@ != target.columns@[name]@
}

/// Whether the target can take the rows of the reference: it has each column of the reference,
/// with the same type.
pub open spec fn takes_the_rows_of(target: PgTable, reference: PgTable) -> bool {
    forall|name: Seq<char>| #[trigger]
        reference.columns@.contains_key(name) ==> target.columns@.contains_key(name)
            && reference.columns@[name]@ == target.columns@[name]@
}

/// Whether the target has a column that the reference has not.
pub open spec fn has_more_columns(target: PgTable, reference: PgTable) -> bool {
    exists|name: Seq<char>| #[trigger]
        target.columns@.contains_key(name) && !reference.columns@.contains_key(name)
}

proof fn lemma_lacking(of: PgTable, other: PgTable, name: Seq<char>)
    requires
        of.columns.valid(),
    ensures
        schema_compare::lacking_columns(of, other).contains(name) <==> is_absent(of, other, name),
{
    assert(of.columns@.contains_key(name) <==> of.columns.order().contains(name));
    collections::lemma_filter_has(of.columns.order(), schema_compare::is_lacking(other), name);
}

proof fn lemma_retyped(of: PgTable, other: PgTable, name: Seq<char>)
    requires
        of.columns.valid(),
    ensures
        of.columns.order().filter(schema_compare::is_retyped(of, other)).contains(name) <==> has_two_types(
            of,
            other,
            name,
        ),
{
    assert(of.columns@.contains_key(name) <==> of.columns.order().contains(name));
    collections::lemma_filter_has(of.columns.order(), schema_compare::is_retyped(of, other), name);
}

/// A filter leaves ascending names in their order.
proof fn lemma_filter_ascends(names: Seq<Seq<char>>, keep: spec_fn(Seq<char>) -> bool)
    requires
        collections::ascending(names),
    ensures
        collections::ascending(names.filter(keep)),
    decreases names.len(),
{
    reveal(Seq::filter);
    if names.len() > 0 {
        let less = names.drop_last();
        lemma_filter_ascends(less, keep);
        let kept = less.filter(keep);
        assert forall|i: int, j: int| 0 <= i < j < names.filter(keep).len() implies text::text_before(
            #[trigger] names.filter(keep)[i],
            #[trigger] names.filter(keep)[j],
        ) by {
            if j == kept.len() {
                assert(kept.contains(kept[i]));
                less.lemma_filter_contains_rev(keep, kept[i]);
                let a = less.index_of(kept[i]);
                assert(names[a] == kept[i]);
                assert(text::text_before(names[a], names[names.len() - 1]));
            } else {
                assert(text::text_before(kept[i], kept[j]));
            }
        }
    }
}

/// For two tables of which the first is the reference, and which are not excluded: they do not
/// match exactly where a column of the reference is absent from the target or has another type
/// there; the target has more exactly where each column of the reference is in it with its type
/// and it has a further one; and else they match.
pub proof fn the_target_has_to_take_the_rows_of_the_reference(reference: PgTable, target: PgTable)
    requires
        reference.columns.valid(),
        target.columns.valid(),
    ensures
        ({
            let verdict = schema_compare::schema_verdict(reference, target, false);
            &&& verdict is Mismatch <==> !takes_the_rows_of(target, reference)
            &&& verdict is TargetSuperset <==> takes_the_rows_of(target, reference) && has_more_columns(
                target,
                reference,
            )
            &&& verdict is Match <==> takes_the_rows_of(target, reference) && !has_more_columns(target, reference)
        }),
        ({
            let verdict = schema_compare::schema_verdict(reference, target, true);
            &&& verdict is Excluded <==> !takes_the_rows_of(target, reference)
            &&& takes_the_rows_of(target, reference) ==> verdict == schema_compare::schema_verdict(
                reference,
                target,
                false,
            )
        }),
{
    let missing = schema_compare::lacking_columns(reference, target);
    let extra = schema_compare::lacking_columns(target, reference);
    let retyped = reference.columns.order().filter(schema_compare::is_retyped(reference, target));
    assert(schema_compare::retyped_messages(reference, target).len() == retyped.len());
    if missing.len() > 0 {
        assert(missing.contains(missing[0]));
        lemma_lacking(reference, target, missing[0]);
        assert(reference.columns@.contains_key(missing[0]));
    }
    if retyped.len() > 0 {
        assert(retyped.contains(retyped[0]));
        lemma_retyped(reference, target, retyped[0]);
        assert(reference.columns@.contains_key(retyped[0]));
    }
    if extra.len() > 0 {
        assert(extra.contains(extra[0]));
        lemma_lacking(target, reference, extra[0]);
        assert(target.columns@.contains_key(extra[0]));
    }
    if !takes_the_rows_of(target, reference) {
        let name = choose|name: Seq<char>| #[trigger]
            reference.columns@.contains_key(name) && !(target.columns@.contains_key(name)
                && reference.columns@[name]@ == target.columns@[name]@);
        lemma_lacking(reference, target, name);
        lemma_retyped(reference, target, name);
    }
    if has_more_columns(target, reference) {
        let name = choose|name: Seq<char>| #[trigger]
            target.columns@.contains_key(name) && !reference.columns@.contains_key(name);
        lemma_lacking(target, reference, name);
    }
}

/// The columns that the target has more are listed, all of them and no others, each once and in
/// ascending order.
pub proof fn the_further_columns_are_listed(reference: PgTable, target: PgTable, is_excluded: bool)
    requires
        reference.columns.valid(),
        target.columns.valid(),
    ensures
        schema_compare::schema_verdict(reference, target, is_excluded) matches SchemaVerdict::TargetSuperset(extra)
            ==> {
            &&& collections::ascending(extra)
            &&& forall|name: Seq<char>| #[trigger]
                extra.contains(name) <==> target.columns@.contains_key(name) && !reference.columns@.contains_key(
                    name,
                )
        },
{
    let extra = schema_compare::lacking_columns(target, reference);
    lemma_filter_ascends(target.columns.order(), schema_compare::is_lacking(reference));
    assert forall|name: Seq<char>| #[trigger] extra.contains(name) <==> target.columns@.contains_key(name)
        && !reference.columns@.contains_key(name) by {
        lemma_lacking(target, reference, name);
    }
}

/// Where columns of the reference are absent from the target, the message names these, all of
/// them and no others; and else it names the columns whose types differ, each with the type that
/// it has in the reference and the one that it has in the target.
pub proof fn a_mismatch_says_what_is_wrong(
    reference: PgTable,
    target: PgTable,
    missing: Seq<Seq<char>>,
    retyped: Seq<Seq<char>>,
    said: Seq<Seq<char>>,
)
    requires
        reference.columns.valid(),
        target.columns.valid(),
        collections::ascending(missing),
        forall|name: Seq<char>| #[trigger] missing.contains(name) <==> is_absent(reference, target, name),
        collections::ascending(retyped),
        forall|name: Seq<char>| #[trigger] retyped.contains(name) <==> has_two_types(reference, target, name),
        said.len() == retyped.len(),
        forall|i: int|
            0 <= i < retyped.len() ==> #[trigger] said[i] == "column '"@ + retyped[i] + "': type '"@
                + reference.columns@[retyped[i]]@ + "' vs '"@ + target.columns@[retyped[i]]@ + "'"@,
    ensures
        schema_compare::schema_verdict(reference, target, false) matches SchemaVerdict::Mismatch(message)
            ==> message == if missing.len() > 0 {
            "Reference columns missing in target: "@ + text::joined(missing, ", "@)
        } else {
            "Type mismatches: "@ + text::joined(said, "; "@)
        },
{
    let lacking = schema_compare::lacking_columns(reference, target);
    let others = reference.columns.order().filter(schema_compare::is_retyped(reference, target));
    lemma_filter_ascends(reference.columns.order(), schema_compare::is_lacking(target));
    lemma_filter_ascends(reference.columns.order(), schema_compare::is_retyped(reference, target));
    assert forall|name: Seq<char>| #[trigger] lacking.contains(name) <==> missing.contains(name) by {
        lemma_lacking(reference, target, name);
    }
    assert forall|name: Seq<char>| #[trigger] others.contains(name) <==> retyped.contains(name) by {
        lemma_retyped(reference, target, name);
    }
    collections::lemma_ascending_unique(lacking, missing);
    collections::lemma_ascending_unique(others, retyped);
    assert(schema_compare::retyped_messages(reference, target) =~= said);
}

/// Of the tables of a reference schema: one that is not excluded and that the target schema has
/// is skipped exactly where the target table lacks a column of the reference table or has it with
/// another type; one that the target schema has not is skipped; and an excluded one is not.
pub proof fn tables_are_skipped_that_the_target_cannot_take(
    table: Seq<char>,
    reference: PgTable,
    targets: Map<Seq<char>, PgTable>,
    is_excluded: bool,
)
    requires
        reference.columns.valid(),
        targets.contains_key(table) ==> targets[table].columns.valid(),
    ensures
        ({
            let verdict = schema_compare::table_verdict(table, reference, targets, is_excluded);
            &&& is_excluded ==> !(verdict is Mismatch)
            &&& !is_excluded ==> !(verdict is Excluded)
            &&& !is_excluded && !targets.contains_key(table) ==> verdict == SchemaVerdict::Mismatch(
                "Table '"@ + table + "' not found in target schema"@,
            )
            &&& !targets.contains_key(table) && is_excluded ==> verdict is Excluded
            &&& !is_excluded && targets.contains_key(table) ==> {
                &&& verdict is Mismatch <==> exists|name: Seq<char>| #[trigger]
                    reference.columns@.contains_key(name) && !(targets[table].columns@.contains_key(name)
                        && reference.columns@[name]@ == targets[table].columns@[name]@)
                &&& verdict is TargetSuperset <==> takes_the_rows_of(targets[table], reference) && has_more_columns(
                    targets[table],
                    reference,
                )
                &&& verdict is Match <==> takes_the_rows_of(targets[table], reference) && !has_more_columns(
                    targets[table],
                    reference,
                )
            }
            &&& verdict matches SchemaVerdict::TargetSuperset(extra) ==> targets.contains_key(table) && forall|
                name: Seq<char>,
            | #[trigger]
                extra.contains(name) <==> targets[table].columns@.contains_key(name)
                    && !reference.columns@.contains_key(name)
            &&& targets.contains_key(table) && is_excluded ==> (verdict is Excluded <==> !takes_the_rows_of(
                targets[table],
                reference,
            ))
        }),
{
    if targets.contains_key(table) {
        the_target_has_to_take_the_rows_of_the_reference(reference, targets[table]);
        the_further_columns_are_listed(reference, targets[table], is_excluded);
    }
}

/// A table is excluded exactly where one of the names has the same lowercase form as its own.
pub proof fn tables_are_excluded_whatever_the_case(names: Set<Seq<char>>, table: Seq<char>, name: Seq<char>)
    ensures
        names.contains(name) && outside::lowercase_text(name) == outside::lowercase_text(table)
            ==> schema_compare::excludes(names, table),
        schema_compare::excludes(names, table) ==> exists|n: Seq<char>| #[trigger]
            names.contains(n) && outside::lowercase_text(n) == outside::lowercase_text(table),
        schema_compare::excludes(Set::empty(), table) == false,
{
}

/// A result is reported by its verdict, and with the names or the message that it has.
pub proof fn results_are_told_apart(a: SchemaComparisonResult, b: SchemaComparisonResult)
    ensures
        schema_compare::verdict_of(a) is Match <==> a is Match,
        schema_compare::verdict_of(a) is Excluded <==> a is Excluded,
        schema_compare::verdict_of(a) is TargetSuperset <==> a is TargetSuperset,
        schema_compare::verdict_of(a) is Mismatch <==> a is Mismatch,
        (a matches SchemaComparisonResult::Mismatch { message } && b matches SchemaComparisonResult::Mismatch {
            message: other,
        } && schema_compare::result_text(a) == schema_compare::result_text(b)) ==> a->message@ == b->message@,
{
    reveal_strlit("Mismatch: ");
    if a is Mismatch && b is Mismatch && schema_compare::result_text(a) == schema_compare::result_text(b) {
        let n = "Mismatch: "@.len() as int;
        assert(schema_compare::result_text(a).skip(n) =~= a->message@);
        assert(schema_compare::result_text(b).skip(n) =~= b->message@);
    }
}

} // verus!
