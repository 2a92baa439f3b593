//! What holds of comparing two manifests.

use vstd::prelude::*;

use crate::checksum;
use crate::checksum::{ChunkChecksum, SummaryView, TableChecksum};
use crate::collections;
use crate::collections::TextMap;

verus! {

/// How often a text is in a list.
spec fn times(s: Seq<Seq<char>>, k: Seq<char>) -> nat {
    s.to_multiset().count(k)
}

proof fn lemma_times_add(a: Seq<Seq<char>>, b: Seq<Seq<char>>, k: Seq<char>)
    ensures
        times(a + b, k) == times(a, k) + times(b, k),
{
    broadcast use vstd::multiset::group_multiset_axioms;

    vstd::seq_lib::lemma_multiset_commutative(a, b);
}

/// In a list without repetitions a text that is in it is there once.
proof fn lemma_times_once(s: Seq<Seq<char>>, k: Seq<char>)
    requires
        s.no_duplicates(),
    ensures
        times(s, k) == if s.contains(k) { 1nat } else { 0 },
{
    s.to_multiset_ensures();
    s.lemma_multiset_has_no_duplicates();
    assert(s.contains(k) <==> s.to_multiset().count(k) > 0);
    assert(s.to_multiset().contains(k) <==> s.to_multiset().count(k) > 0);
}

proof fn lemma_filter_keeps_apart(s: Seq<Seq<char>>, keep: spec_fn(Seq<char>) -> bool)
    requires
        s.no_duplicates(),
    ensures
        s.filter(keep).no_duplicates(),
    decreases s.len(),
{
    reveal(Seq::filter);
    if s.len() > 0 {
        let front = s.drop_last();
        lemma_filter_keeps_apart(front, keep);
        let f = front.filter(keep);
        if f.contains(s.last()) {
            front.lemma_filter_contains_rev(keep, s.last());
            let i = front.index_of(s.last());
            assert(s[i] == s[s.len() - 1]);
        }
        assert forall|i: int, j: int| 0 <= i < j < f.push(s.last()).len() implies f.push(s.last())[i] != f.push(
            s.last(),
        )[j] by {
            if j == f.len() {
                assert(f.contains(f[i]));
            }
        }
    }
}

/// The keys of a map are each there once.
proof fn lemma_times_in_order(map: TextMap<String>, k: Seq<char>)
    requires
        map.valid(),
    ensures
        map.order().no_duplicates(),
        times(map.order(), k) == if map@.contains_key(k) { 1nat } else { 0 },
{
    if map.order().len() > 0 {
        collections::lemma_ascending_index(map.order(), 0);
    }
    lemma_times_once(map.order(), k);
}

proof fn lemma_times_found(from: TextMap<String>, to: TextMap<String>, k: Seq<char>)
    requires
        from.valid(),
    ensures
        times(checksum::missing_rows(from, to), k) == if from@.contains_key(k) && !to@.contains_key(k) {
            1nat
        } else {
            0
        },
        times(checksum::modified_rows(from, to), k) == if from@.contains_key(k) && to@.contains_key(k)
            && from@[k]@ != to@[k]@ {
            1nat
        } else {
            0
        },
{
    lemma_times_in_order(from, k);
    lemma_filter_keeps_apart(from.order(), checksum::is_missing(from, to));
    lemma_filter_keeps_apart(from.order(), checksum::is_modified(from, to));
    lemma_times_once(checksum::missing_rows(from, to), k);
    lemma_times_once(checksum::modified_rows(from, to), k);
    checksum::lemma_missing_rows(from, to, k);
}

/// The number of chunks whose index has a property.
spec fn tally(chunks: Seq<ChunkChecksum>, p: spec_fn(usize) -> bool) -> nat
    decreases chunks.len(),
{
    if chunks.len() == 0 {
        0
    } else {
        tally(chunks.drop_last(), p) + if p(chunks.last().chunk_index) {
            1nat
        } else {
            0
        }
    }
}

/// The indices of chunks that have a property.
spec fn indices(chunks: Seq<ChunkChecksum>, p: spec_fn(usize) -> bool) -> Set<usize> {
    Set::new(|i: usize| checksum::has_chunk(chunks, i) && p(i))
}

proof fn lemma_tally(chunks: Seq<ChunkChecksum>, p: spec_fn(usize) -> bool)
    requires
        checksum::chunks_valid(chunks),
    ensures
        indices(chunks, p).finite(),
        tally(chunks, p) == indices(chunks, p).len(),
    decreases chunks.len(),
{
    if chunks.len() == 0 {
        assert(indices(chunks, p) =~= Set::<usize>::empty());
    } else {
        let front = chunks.drop_last();
        lemma_front_valid(chunks);
        lemma_tally(front, p);
        let index = chunks.last().chunk_index;
        checksum::lemma_last_chunk(front, index);
        if let Some(c) = checksum::last_chunk(front, index) {
            let i = front.index_of(c);
            assert(chunks[i].chunk_index != chunks[chunks.len() - 1].chunk_index);
        }
        assert(!checksum::has_chunk(front, index));
        if p(index) {
            assert(indices(chunks, p) =~= indices(front, p).insert(index));
        } else {
            assert(indices(chunks, p) =~= indices(front, p));
        }
    }
}

proof fn lemma_front_valid(chunks: Seq<ChunkChecksum>)
    requires
        checksum::chunks_valid(chunks),
        chunks.len() > 0,
    ensures
        checksum::chunks_valid(chunks.drop_last()),
{
    let front = chunks.drop_last();
    assert forall|i: int, j: int| 0 <= i < j < front.len() implies (#[trigger] front[i]).chunk_index != (
    #[trigger] front[j]).chunk_index by {
        assert(chunks[i].chunk_index != chunks[j].chunk_index);
    }
    assert forall|i: int| 0 <= i < front.len() implies (#[trigger] front[i]).row_hashes.valid() by {
        assert(chunks[i].row_hashes.valid());
    }
}

/// How often a row is found in the first `n` reference chunks.
proof fn lemma_reference_times(chunks: Seq<ChunkChecksum>, others: Seq<ChunkChecksum>, n: int, k: Seq<char>)
    requires
        checksum::chunks_valid(chunks),
        checksum::chunks_valid(others),
        0 <= n <= chunks.len(),
    ensures
        ({
            let found = checksum::reference_findings(chunks.take(n), others);
            let some = chunks.take(n);
            &&& times(found.missing, k) == tally(some, |i: usize| checksum::only_in(chunks, others, i, k))
            &&& times(found.extra, k) == tally(some, |i: usize| checksum::only_in(others, chunks, i, k))
            &&& times(found.modified, k) == tally(some, |i: usize| checksum::changed(chunks, others, i, k))
        }),
    decreases n,
{
    let some = chunks.take(n);
    if n == 0 {
        assert(some =~= Seq::<ChunkChecksum>::empty());
        lemma_times_once(Seq::empty(), k);
    } else {
        lemma_reference_times(chunks, others, n - 1, k);
        assert(some.drop_last() =~= chunks.take(n - 1));
        let before = checksum::reference_findings(chunks.take(n - 1), others);
        let chunk = chunks[n - 1];
        assert(some.last() == chunk);
        let missing = checksum::chunk_missing(chunk, others);
        let extra = checksum::chunk_extra(chunk, others);
        let modified = checksum::chunk_modified(chunk, others);
        lemma_times_add(before.missing, missing, k);
        lemma_times_add(before.extra, extra, k);
        lemma_times_add(before.modified, modified, k);
        checksum::lemma_unique_chunk(chunks, n - 1);
        checksum::lemma_last_chunk(others, chunk.chunk_index);
        match checksum::last_chunk(others, chunk.chunk_index) {
            Some(other) => {
                let j = others.index_of(other);
                assert(others[j].row_hashes.valid());
                lemma_times_found(chunk.row_hashes, other.row_hashes, k);
                lemma_times_found(other.row_hashes, chunk.row_hashes, k);
            },
            None => {
                lemma_times_in_order(chunk.row_hashes, k);
                lemma_times_once(Seq::empty(), k);
            },
        }
    }
}

/// How often a row is found in the first `n` target chunks that the reference lacks.
proof fn lemma_target_times(
    found: checksum::ChunkFindings,
    chunks: Seq<ChunkChecksum>,
    others: Seq<ChunkChecksum>,
    n: int,
    k: Seq<char>,
)
    requires
        checksum::chunks_valid(others),
        0 <= n <= others.len(),
    ensures
        ({
            let all = checksum::target_findings(found, chunks, others.take(n));
            &&& all.missing == found.missing
            &&& all.modified == found.modified
            &&& times(all.extra, k) == times(found.extra, k) + tally(
                others.take(n),
                |i: usize| !checksum::has_chunk(chunks, i) && checksum::has_row(others, i, k),
            )
        }),
    decreases n,
{
    let some = others.take(n);
    if n == 0 {
        assert(some =~= Seq::<ChunkChecksum>::empty());
    } else {
        lemma_target_times(found, chunks, others, n - 1, k);
        assert(some.drop_last() =~= others.take(n - 1));
        let before = checksum::target_findings(found, chunks, others.take(n - 1));
        let other = others[n - 1];
        assert(some.last() == other);
        lemma_times_add(before.extra, other.row_hashes.order(), k);
        lemma_times_in_order(other.row_hashes, k);
        checksum::lemma_unique_chunk(others, n - 1);
    }
}

/// How often a row is found, in terms of the chunks in which it differs.
proof fn lemma_times(chunks: Seq<ChunkChecksum>, others: Seq<ChunkChecksum>, k: Seq<char>)
    requires
        checksum::chunks_valid(chunks),
        checksum::chunks_valid(others),
    ensures
        ({
            let all = checksum::findings(chunks, others);
            &&& times(all.missing, k) == tally(chunks, |i: usize| checksum::only_in(chunks, others, i, k))
            &&& times(all.extra, k) == tally(others, |i: usize| checksum::only_in(others, chunks, i, k))
            &&& times(all.modified, k) == tally(chunks, |i: usize| checksum::changed(chunks, others, i, k))
        }),
{
    let found = checksum::reference_findings(chunks, others);
    assert(chunks.take(chunks.len() as int) =~= chunks);
    assert(others.take(others.len() as int) =~= others);
    lemma_reference_times(chunks, others, chunks.len() as int, k);
    lemma_target_times(found, chunks, others, others.len() as int, k);
    let p = |i: usize| checksum::only_in(others, chunks, i, k);
    let q = |i: usize| !checksum::has_chunk(chunks, i) && checksum::has_row(others, i, k);
    lemma_tally(chunks, p);
    lemma_tally(others, p);
    lemma_tally(others, q);
    let shared = indices(chunks, p);
    let own = indices(others, q);
    assert(shared.disjoint(own));
    assert(indices(others, p) =~= shared + own);
    vstd::set_lib::lemma_set_disjoint_lens(shared, own);
}

proof fn lemma_reference_indices(chunks: Seq<ChunkChecksum>, others: Seq<ChunkChecksum>)
    requires
        checksum::chunks_valid(chunks),
    ensures
        checksum::reference_findings(chunks, others).differing.no_duplicates(),
        forall|index: usize| #[trigger]
            checksum::reference_findings(chunks, others).differing.contains(index) ==> checksum::has_chunk(
                chunks,
                index,
            ),
    decreases chunks.len(),
{
    if chunks.len() > 0 {
        let front = chunks.drop_last();
        lemma_front_valid(chunks);
        lemma_reference_indices(front, others);
        let before = checksum::reference_findings(front, others).differing;
        let index = chunks.last().chunk_index;
        checksum::lemma_last_chunk(front, index);
        if let Some(c) = checksum::last_chunk(front, index) {
            let i = front.index_of(c);
            assert(chunks[i].chunk_index != chunks[chunks.len() - 1].chunk_index);
        }
        lemma_push_apart(before, index);
    }
}

proof fn lemma_push_apart(s: Seq<usize>, x: usize)
    requires
        s.no_duplicates(),
    ensures
        !s.contains(x) ==> s.push(x).no_duplicates(),
        forall|y: usize| #[trigger] s.push(x).contains(y) <==> s.contains(y) || x == y,
{
    broadcast use vstd::seq_lib::lemma_seq_contains_after_push;

    if !s.contains(x) {
        assert forall|i: int, j: int| 0 <= i < j < s.push(x).len() implies s.push(x)[i] != s.push(x)[j] by {
            if j == s.len() {
                assert(s.contains(s[i]));
            }
        }
    }
}

proof fn lemma_target_indices(
    found: checksum::ChunkFindings,
    chunks: Seq<ChunkChecksum>,
    others: Seq<ChunkChecksum>,
)
    requires
        checksum::chunks_valid(others),
        found.differing.no_duplicates(),
        forall|index: usize| #[trigger] found.differing.contains(index) ==> checksum::has_chunk(chunks, index),
    ensures
        ({
            let all = checksum::target_findings(found, chunks, others).differing;
            &&& all.no_duplicates()
            &&& forall|index: usize| #[trigger]
                all.contains(index) ==> checksum::has_chunk(chunks, index) || checksum::has_chunk(others, index)
        }),
    decreases others.len(),
{
    if others.len() > 0 {
        let front = others.drop_last();
        lemma_front_valid(others);
        lemma_target_indices(found, chunks, front);
        let before = checksum::target_findings(found, chunks, front).differing;
        let index = others.last().chunk_index;
        checksum::lemma_last_chunk(front, index);
        if let Some(c) = checksum::last_chunk(front, index) {
            let i = front.index_of(c);
            assert(others[i].chunk_index != others[others.len() - 1].chunk_index);
        }
        lemma_push_apart(before, index);
    }
}

/// No chunk is reported twice.
pub proof fn chunks_are_reported_once(chunks: Seq<ChunkChecksum>, others: Seq<ChunkChecksum>)
    requires
        checksum::chunks_valid(chunks),
        checksum::chunks_valid(others),
    ensures
        checksum::findings(chunks, others).differing.no_duplicates(),
{
    lemma_reference_indices(chunks, others);
    lemma_target_indices(checksum::reference_findings(chunks, others), chunks, others);
}

/// Comparing the other way round swaps what is missing in the target and what is missing in the
/// reference, and finds the same rows modified and the same chunks differing, each as often.
pub proof fn comparison_is_symmetric(chunks: Seq<ChunkChecksum>, others: Seq<ChunkChecksum>)
    requires
        checksum::chunks_valid(chunks),
        checksum::chunks_valid(others),
    ensures
        ({
            let there = checksum::findings(chunks, others);
            let back = checksum::findings(others, chunks);
            &&& there.missing.to_multiset() == back.extra.to_multiset()
            &&& there.extra.to_multiset() == back.missing.to_multiset()
            &&& there.modified.to_multiset() == back.modified.to_multiset()
            &&& there.differing.to_multiset() == back.differing.to_multiset()
        }),
{
    let there = checksum::findings(chunks, others);
    let back = checksum::findings(others, chunks);
    assert forall|k: Seq<char>| times(there.missing, k) == times(back.extra, k) && times(there.extra, k) == times(
        back.missing,
        k,
    ) && times(there.modified, k) == times(back.modified, k) by {
        lemma_times(chunks, others, k);
        lemma_times(others, chunks, k);
        let p = |i: usize| checksum::changed(chunks, others, i, k);
        let q = |i: usize| checksum::changed(others, chunks, i, k);
        lemma_tally(chunks, p);
        lemma_tally(others, q);
        assert(indices(chunks, p) =~= indices(others, q));
    }
    assert forall|k: Seq<char>| there.missing.to_multiset().count(k) == back.extra.to_multiset().count(k) by {
        assert(times(there.missing, k) == times(back.extra, k));
    }
    assert forall|k: Seq<char>| there.extra.to_multiset().count(k) == back.missing.to_multiset().count(k) by {
        assert(times(there.missing, k) == times(back.extra, k));
    }
    assert forall|k: Seq<char>| there.modified.to_multiset().count(k) == back.modified.to_multiset().count(k) by {
        assert(times(there.missing, k) == times(back.extra, k));
    }
    assert(there.missing.to_multiset() =~= back.extra.to_multiset());
    assert(there.extra.to_multiset() =~= back.missing.to_multiset());
    assert(there.modified.to_multiset() =~= back.modified.to_multiset());
    chunks_are_reported_once(chunks, others);
    chunks_are_reported_once(others, chunks);
    there.differing.to_multiset_ensures();
    back.differing.to_multiset_ensures();
    there.differing.lemma_multiset_has_no_duplicates();
    back.differing.lemma_multiset_has_no_duplicates();
    assert forall|index: usize| there.differing.to_multiset().count(index) == back.differing.to_multiset().count(
        index,
    ) by {
        checksum::chunks_are_reported_where_they_differ(chunks, others, index);
        checksum::chunks_are_reported_where_they_differ(others, chunks, index);
        assert forall|x: Seq<char>| #[trigger] checksum::row_differs(chunks, others, index, x)
            == checksum::row_differs(others, chunks, index, x) by {}
        if exists|x: Seq<char>| #[trigger] checksum::row_differs(chunks, others, index, x) {
            let x = choose|x: Seq<char>| #[trigger] checksum::row_differs(chunks, others, index, x);
            assert(checksum::row_differs(others, chunks, index, x));
        }
        if exists|x: Seq<char>| #[trigger] checksum::row_differs(others, chunks, index, x) {
            let x = choose|x: Seq<char>| #[trigger] checksum::row_differs(others, chunks, index, x);
            assert(checksum::row_differs(chunks, others, index, x));
        }
        assert(there.differing.contains(index) == back.differing.contains(index));
        assert(there.differing.to_multiset().contains(index) <==> there.differing.to_multiset().count(index) > 0);
        assert(back.differing.to_multiset().contains(index) <==> back.differing.to_multiset().count(index) > 0);
    }
    assert(there.differing.to_multiset() =~= back.differing.to_multiset());
}

/// Whether two summaries of a table say the same, one of them the other way round.
pub open spec fn mirrored(a: SummaryView, b: SummaryView) -> bool {
    &&& a.table_name == b.table_name
    &&& a.missing_in_target.to_multiset() == b.missing_in_reference.to_multiset()
    &&& a.missing_in_reference.to_multiset() == b.missing_in_target.to_multiset()
    &&& a.modified.to_multiset() == b.modified.to_multiset()
    &&& a.differing_chunks.to_multiset() == b.differing_chunks.to_multiset()
}

/// Swapping two manifests mirrors the summaries of the tables that both have: a table has a
/// summary exactly where it has one the other way round, and they say the same.
pub proof fn swapped_manifests_give_mirrored_summaries(
    tables: Seq<TableChecksum>,
    targets: Seq<TableChecksum>,
    i: int,
    j: int,
)
    requires
        checksum::tables_valid(tables),
        checksum::tables_valid(targets),
        0 <= i < tables.len(),
        0 <= j < targets.len(),
        tables[i].table_name@ == targets[j].table_name@,
    ensures
        match (checksum::table_summary(tables[i], targets), checksum::table_summary(targets[j], tables)) {
            (Some(a), Some(b)) => mirrored(a, b) && checksum::summaries_of(tables, targets).contains(a)
                && checksum::summaries_of(targets, tables).contains(b),
            (None, None) => true,
            _ => false,
        },
        checksum::table_summary(tables[i], targets) is None ==> forall|s: SummaryView| #[trigger]
            checksum::summaries_of(tables, targets).contains(s) ==> s.table_name != tables[i].table_name@,
{
    assert(tables.take(tables.len() as int) =~= tables);
    assert(targets.take(targets.len() as int) =~= targets);
    checksum::lemma_unique_table(tables, tables.len() as int, i);
    checksum::lemma_unique_table(targets, targets.len() as int, j);
    assert(checksum::chunks_valid(tables[i].chunks@));
    assert(checksum::chunks_valid(targets[j].chunks@));
    let there = checksum::findings(tables[i].chunks@, targets[j].chunks@);
    let back = checksum::findings(targets[j].chunks@, tables[i].chunks@);
    comparison_is_symmetric(tables[i].chunks@, targets[j].chunks@);
    there.missing.to_multiset_ensures();
    there.extra.to_multiset_ensures();
    there.modified.to_multiset_ensures();
    there.differing.to_multiset_ensures();
    back.missing.to_multiset_ensures();
    back.extra.to_multiset_ensures();
    back.modified.to_multiset_ensures();
    back.differing.to_multiset_ensures();
    if let Some(a) = checksum::table_summary(tables[i], targets) {
        summaries_are_those_of_tables(tables, targets, a);
    }
    if let Some(b) = checksum::table_summary(targets[j], tables) {
        summaries_are_those_of_tables(targets, tables, b);
    }
    if checksum::table_summary(tables[i], targets) is None {
        assert forall|s: SummaryView| #[trigger] checksum::summaries_of(tables, targets).contains(s) implies s.table_name
            != tables[i].table_name@ by {
            summaries_are_those_of_tables(tables, targets, s);
            let l = choose|l: int|
                0 <= l < tables.len() && checksum::table_summary(#[trigger] tables[l], targets) == Some(s);
            if tables[l].table_name@ == tables[i].table_name@ {
                assert(l == i);
            }
        }
    }
}

/// The summaries are those of the reference tables.
pub proof fn summaries_are_those_of_tables(
    tables: Seq<TableChecksum>,
    targets: Seq<TableChecksum>,
    s: SummaryView,
)
    ensures
        checksum::summaries_of(tables, targets).contains(s) <==> exists|i: int|
            0 <= i < tables.len() && checksum::table_summary(#[trigger] tables[i], targets) == Some(s),
    decreases tables.len(),
{
    let all = checksum::summaries_of(tables, targets);
    if tables.len() > 0 {
        let front = tables.drop_last();
        let n = tables.len() - 1;
        summaries_are_those_of_tables(front, targets, s);
        let before = checksum::summaries_of(front, targets);
        if before.contains(s) {
            let i = choose|i: int|
                0 <= i < front.len() && checksum::table_summary(#[trigger] front[i], targets) == Some(s);
            assert(tables[i] == front[i]);
            assert(all[before.index_of(s)] == s);
        }
        if checksum::table_summary(tables[n], targets) == Some(s) {
            assert(all[before.len() as int] == s);
        }
        if exists|i: int| 0 <= i < tables.len() && checksum::table_summary(#[trigger] tables[i], targets) == Some(s) {
            let i = choose|i: int|
                0 <= i < tables.len() && checksum::table_summary(#[trigger] tables[i], targets) == Some(s);
            if i < n {
                assert(front[i] == tables[i]);
            }
        }
        if all.contains(s) && !before.contains(s) {
            let p = all.index_of(s);
            if p < before.len() {
                assert(before[p] == s);
            }
            assert(checksum::table_summary(tables[n], targets) == Some(s));
        }
    }
}

/// Whether two maps hold the same hashes under the same keys.
pub open spec fn same_hashes(a: TextMap<String>, b: TextMap<String>) -> bool {
    &&& a.valid()
    &&& b.valid()
    &&& forall|k: Seq<char>| #[trigger] a@.contains_key(k) <==> b@.contains_key(k)
    &&& forall|k: Seq<char>| #[trigger] a@.contains_key(k) ==> a@[k]@ == b@[k]@
}

/// Whether two lists of chunks have the same indices and row hashes.
pub open spec fn same_chunks(a: Seq<ChunkChecksum>, b: Seq<ChunkChecksum>) -> bool {
    &&& a.len() == b.len()
    &&& forall|i: int| 0 <= i < a.len() ==> same_chunk(#[trigger] a[i], b[i])
}

/// Whether two chunks have the same index and row hashes.
pub open spec fn same_chunk(a: ChunkChecksum, b: ChunkChecksum) -> bool {
    a.chunk_index == b.chunk_index && same_hashes(a.row_hashes, b.row_hashes)
}

/// Whether two tables have the same name, chunk indices and row hashes.
pub open spec fn same_checksums(a: TableChecksum, b: TableChecksum) -> bool {
    a.table_name@ == b.table_name@ && same_chunks(a.chunks@, b.chunks@)
}

/// Whether two manifests have tables of a name with the same checksums, or neither has one.
pub open spec fn same_target(a: Seq<TableChecksum>, b: Seq<TableChecksum>, name: Seq<char>) -> bool {
    match (checksum::last_table(a, name), checksum::last_table(b, name)) {
        (Some(x), Some(y)) => same_checksums(x, y),
        (None, None) => true,
        _ => false,
    }
}

proof fn lemma_same_order(a: TextMap<String>, b: TextMap<String>)
    requires
        same_hashes(a, b),
    ensures
        a.order() == b.order(),
{
    assert forall|k: Seq<char>| #[trigger] a.order().contains(k) <==> b.order().contains(k) by {
        assert(a@.contains_key(k) <==> a.order().contains(k));
        assert(b@.contains_key(k) <==> b.order().contains(k));
    }
    collections::lemma_ascending_unique(a.order(), b.order());
}

proof fn lemma_same_found(
    a: TextMap<String>,
    b: TextMap<String>,
    to_a: TextMap<String>,
    to_b: TextMap<String>,
)
    requires
        same_hashes(a, b),
        same_hashes(to_a, to_b),
    ensures
        checksum::missing_rows(a, to_a) == checksum::missing_rows(b, to_b),
        checksum::modified_rows(a, to_a) == checksum::modified_rows(b, to_b),
{
    lemma_same_order(a, b);
    let missing_a = checksum::is_missing(a, to_a);
    let missing_b = checksum::is_missing(b, to_b);
    let modified_a = checksum::is_modified(a, to_a);
    let modified_b = checksum::is_modified(b, to_b);
    assert forall|k: Seq<char>| #[trigger] missing_a(k) == missing_b(k) by {
        assert(a@.contains_key(k) <==> b@.contains_key(k));
        assert(to_a@.contains_key(k) <==> to_b@.contains_key(k));
    }
    assert forall|k: Seq<char>| #[trigger] modified_a(k) == modified_b(k) by {
        assert(a@.contains_key(k) <==> b@.contains_key(k));
        assert(to_a@.contains_key(k) <==> to_b@.contains_key(k));
    }
    assert(missing_a =~= missing_b);
    assert(modified_a =~= modified_b);
}

proof fn lemma_same_last_chunk(a: Seq<ChunkChecksum>, b: Seq<ChunkChecksum>, index: usize)
    requires
        same_chunks(a, b),
    ensures
        match (checksum::last_chunk(a, index), checksum::last_chunk(b, index)) {
            (Some(x), Some(y)) => same_chunk(x, y),
            (None, None) => true,
            _ => false,
        },
    decreases a.len(),
{
    if a.len() > 0 {
        let n = a.len() - 1;
        assert(same_chunk(a[n], b[n]));
        lemma_same_front(a, b);
        lemma_same_last_chunk(a.drop_last(), b.drop_last(), index);
    }
}

proof fn lemma_same_front(a: Seq<ChunkChecksum>, b: Seq<ChunkChecksum>)
    requires
        same_chunks(a, b),
        a.len() > 0,
    ensures
        same_chunks(a.drop_last(), b.drop_last()),
{
    assert forall|i: int| 0 <= i < a.len() - 1 implies same_chunk(#[trigger] a.drop_last()[i], b.drop_last()[i]) by {
        assert(same_chunk(a[i], b[i]));
    }
}

proof fn lemma_same_reference_findings(
    a: Seq<ChunkChecksum>,
    b: Seq<ChunkChecksum>,
    others_a: Seq<ChunkChecksum>,
    others_b: Seq<ChunkChecksum>,
)
    requires
        same_chunks(a, b),
        same_chunks(others_a, others_b),
    ensures
        checksum::reference_findings(a, others_a) == checksum::reference_findings(b, others_b),
    decreases a.len(),
{
    if a.len() > 0 {
        let n = a.len() - 1;
        assert(same_chunk(a[n], b[n]));
        lemma_same_front(a, b);
        lemma_same_reference_findings(a.drop_last(), b.drop_last(), others_a, others_b);
        let index = a[n].chunk_index;
        lemma_same_last_chunk(others_a, others_b, index);
        match (checksum::last_chunk(others_a, index), checksum::last_chunk(others_b, index)) {
            (Some(x), Some(y)) => {
                lemma_same_found(a[n].row_hashes, b[n].row_hashes, x.row_hashes, y.row_hashes);
                lemma_same_found(x.row_hashes, y.row_hashes, a[n].row_hashes, b[n].row_hashes);
            },
            _ => {
                lemma_same_order(a[n].row_hashes, b[n].row_hashes);
            },
        }
    }
}

proof fn lemma_same_target_findings(
    found: checksum::ChunkFindings,
    a: Seq<ChunkChecksum>,
    b: Seq<ChunkChecksum>,
    others_a: Seq<ChunkChecksum>,
    others_b: Seq<ChunkChecksum>,
)
    requires
        same_chunks(a, b),
        same_chunks(others_a, others_b),
    ensures
        checksum::target_findings(found, a, others_a) == checksum::target_findings(found, b, others_b),
    decreases others_a.len(),
{
    if others_a.len() > 0 {
        let n = others_a.len() - 1;
        assert(same_chunk(others_a[n], others_b[n]));
        lemma_same_front(others_a, others_b);
        lemma_same_target_findings(found, a, b, others_a.drop_last(), others_b.drop_last());
        lemma_same_last_chunk(a, b, others_a[n].chunk_index);
        lemma_same_order(others_a[n].row_hashes, others_b[n].row_hashes);
    }
}

proof fn lemma_same_rows(a: Seq<ChunkChecksum>, b: Seq<ChunkChecksum>)
    requires
        same_chunks(a, b),
    ensures
        checksum::all_rows(a) == checksum::all_rows(b),
    decreases a.len(),
{
    if a.len() > 0 {
        let n = a.len() - 1;
        assert(same_chunk(a[n], b[n]));
        lemma_same_front(a, b);
        lemma_same_rows(a.drop_last(), b.drop_last());
        lemma_same_order(a[n].row_hashes, b[n].row_hashes);
    }
}

proof fn lemma_same_summary(
    a: TableChecksum,
    b: TableChecksum,
    targets_a: Seq<TableChecksum>,
    targets_b: Seq<TableChecksum>,
)
    requires
        same_checksums(a, b),
        same_target(targets_a, targets_b, a.table_name@),
    ensures
        checksum::table_summary(a, targets_a) == checksum::table_summary(b, targets_b),
{
    match (checksum::last_table(targets_a, a.table_name@), checksum::last_table(targets_b, a.table_name@)) {
        (Some(x), Some(y)) => {
            lemma_same_reference_findings(a.chunks@, b.chunks@, x.chunks@, y.chunks@);
            lemma_same_target_findings(
                checksum::reference_findings(a.chunks@, x.chunks@),
                a.chunks@,
                b.chunks@,
                x.chunks@,
                y.chunks@,
            );
        },
        _ => {
            lemma_same_rows(a.chunks@, b.chunks@);
            assert(Seq::new(a.chunks@.len(), |i: int| i as usize) =~= Seq::new(
                b.chunks@.len(),
                |i: int| i as usize,
            ));
        },
    }
}

/// Only the names of tables, the indices of chunks and the hashes of rows count: manifests that
/// have these in common give the same summaries, whatever else they say. Of the target only
/// tables that the reference has too count.
pub proof fn only_names_indices_and_hashes_count(
    tables: Seq<TableChecksum>,
    targets: Seq<TableChecksum>,
    other_tables: Seq<TableChecksum>,
    other_targets: Seq<TableChecksum>,
)
    requires
        tables.len() == other_tables.len(),
        forall|i: int| 0 <= i < tables.len() ==> same_checksums(#[trigger] tables[i], other_tables[i]),
        forall|i: int|
            0 <= i < tables.len() ==> same_target(targets, other_targets, (#[trigger] tables[i]).table_name@),
    ensures
        checksum::summaries_of(tables, targets) == checksum::summaries_of(other_tables, other_targets),
    decreases tables.len(),
{
    if tables.len() > 0 {
        let n = tables.len() - 1;
        let front = tables.drop_last();
        let other_front = other_tables.drop_last();
        assert forall|i: int| 0 <= i < front.len() implies same_checksums(#[trigger] front[i], other_front[i]) by {
            assert(same_checksums(tables[i], other_tables[i]));
        }
        assert forall|i: int| 0 <= i < front.len() implies same_target(
            targets,
            other_targets,
            (#[trigger] front[i]).table_name@,
        ) by {
            assert(front[i] == tables[i]);
        }
        only_names_indices_and_hashes_count(front, targets, other_front, other_targets);
        assert(same_checksums(tables[n], other_tables[n]));
        lemma_same_summary(tables[n], other_tables[n], targets, other_targets);
    }
}

proof fn lemma_last_table_among(
    before: Seq<TableChecksum>,
    added: Seq<TableChecksum>,
    after: Seq<TableChecksum>,
    name: Seq<char>,
)
    requires
        forall|i: int| 0 <= i < added.len() ==> (#[trigger] added[i]).table_name@ != name,
    ensures
        checksum::last_table(before + added + after, name) == checksum::last_table(before + after, name),
    decreases added.len() + after.len(),
{
    if after.len() > 0 {
        let less = after.drop_last();
        assert((before + added + after).drop_last() =~= before + added + less);
        assert((before + after).drop_last() =~= before + less);
        assert((before + added + after).last() == after.last());
        assert((before + after).last() == after.last());
        lemma_last_table_among(before, added, less, name);
    } else if added.len() > 0 {
        let less = added.drop_last();
        assert((before + added + after).drop_last() =~= before + less + after);
        assert((before + added + after).last() == added[added.len() - 1]);
        assert forall|i: int| 0 <= i < less.len() implies (#[trigger] less[i]).table_name@ != name by {
            assert(less[i] == added[i]);
        }
        lemma_last_table_among(before, less, after, name);
    } else {
        assert(before + added + after =~= before + after);
    }
}

proof fn lemma_same_summaries(tables: Seq<TableChecksum>, targets: Seq<TableChecksum>, others: Seq<TableChecksum>)
    requires
        forall|i: int|
            0 <= i < tables.len() ==> checksum::last_table(targets, (#[trigger] tables[i]).table_name@)
                == checksum::last_table(others, tables[i].table_name@),
    ensures
        checksum::summaries_of(tables, targets) == checksum::summaries_of(tables, others),
    decreases tables.len(),
{
    if tables.len() > 0 {
        let front = tables.drop_last();
        assert forall|i: int| 0 <= i < front.len() implies checksum::last_table(
            targets,
            (#[trigger] front[i]).table_name@,
        ) == checksum::last_table(others, front[i].table_name@) by {
            assert(front[i] == tables[i]);
        }
        lemma_same_summaries(front, targets, others);
        let n = tables.len() - 1;
        assert(checksum::last_table(targets, tables[n].table_name@) == checksum::last_table(
            others,
            tables[n].table_name@,
        ));
    }
}

/// Tables that only the target has are not reported: they change nothing, wherever they stand.
pub proof fn target_only_tables_are_not_reported(
    tables: Seq<TableChecksum>,
    before: Seq<TableChecksum>,
    added: Seq<TableChecksum>,
    after: Seq<TableChecksum>,
)
    requires
        forall|i: int, j: int|
            0 <= i < added.len() && 0 <= j < tables.len() ==> (#[trigger] added[i]).table_name@ != (
            #[trigger] tables[j]).table_name@,
    ensures
        checksum::summaries_of(tables, before + added + after) == checksum::summaries_of(tables, before + after),
{
    assert forall|j: int| 0 <= j < tables.len() implies checksum::last_table(
        before + added + after,
        (#[trigger] tables[j]).table_name@,
    ) == checksum::last_table(before + after, tables[j].table_name@) by {
        lemma_last_table_among(before, added, after, tables[j].table_name@);
    }
    lemma_same_summaries(tables, before + added + after, before + after);
}

} // verus!
