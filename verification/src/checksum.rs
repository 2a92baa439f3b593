//! Checksums of the rows of a database, and what two sets of checksums tell apart.

use vstd::prelude::*;

use crate::chunk_strategy;
use crate::collections;
use crate::collections::TextMap;
use crate::config;
use crate::estimation;
use crate::instant;
use crate::sql_gen;
use crate::table_diff;
use crate::table_diff::HashedKey;
use crate::text;
use crate::types;
use crate::types::{ChunkStrategy, ColumnInfo, TableAnalysis};

verus! {

/// Checksum data for a single table chunk.
#[derive(Clone, Debug)]
pub struct ChunkChecksum {
    pub chunk_index: usize,
    pub chunk_start: String,
    pub chunk_end: String,
    /// Key of a row -> hash of the row.
    pub row_hashes: TextMap<String>,
}

/// Checksum data for a single table.
#[derive(Clone, Debug)]
pub struct TableChecksum {
    pub table_name: String,
    pub strategy: String,
    pub row_count: i64,
    pub timestamp_column: Option<String>,
    pub chunks: Vec<ChunkChecksum>,
}

/// Top-level checksum manifest for a database.
#[derive(Clone, Debug)]
pub struct ChecksumManifest {
    pub db_name: Option<String>,
    pub schema: Option<String>,
    pub created_at: String,
    pub tables: Vec<TableChecksum>,
}

/// Summary of differences between two tables' checksums.
#[derive(Clone, Debug)]
pub struct TableDiffSummary {
    pub table_name: String,
    pub differing_chunks: Vec<usize>,
    pub missing_in_target: Vec<String>,
    pub missing_in_reference: Vec<String>,
    pub modified: Vec<String>,
}

/// What a summary of differences says.
pub struct SummaryView {
    pub table_name: Seq<char>,
    pub differing_chunks: Seq<usize>,
    pub missing_in_target: Seq<Seq<char>>,
    pub missing_in_reference: Seq<Seq<char>>,
    pub modified: Seq<Seq<char>>,
}

impl View for TableDiffSummary {
    type V = SummaryView;

    open spec fn view(&self) -> SummaryView {
        SummaryView {
            table_name: self.table_name@,
            differing_chunks: self.differing_chunks@,
            missing_in_target: text::texts(self.missing_in_target@),
            missing_in_reference: text::texts(self.missing_in_reference@),
            modified: text::texts(self.modified@),
        }
    }
}

/// Whether a row has a hash in the first map and none in the second.
pub open spec fn is_missing(from: TextMap<String>, to: TextMap<String>) -> spec_fn(Seq<char>) -> bool {
    |k: Seq<char>| from@.contains_key(k) && !to@.contains_key(k)
}

/// Whether a row has different hashes in two maps.
pub open spec fn is_modified(from: TextMap<String>, to: TextMap<String>) -> spec_fn(Seq<char>) -> bool {
    |k: Seq<char>| from@.contains_key(k) && to@.contains_key(k) && from@[k]@ != to@[k]@
}

/// The rows of the first map that are not in the second.
pub open spec fn missing_rows(from: TextMap<String>, to: TextMap<String>) -> Seq<Seq<char>> {
    from.order().filter(is_missing(from, to))
}

/// The rows that have different hashes in two maps.
pub open spec fn modified_rows(from: TextMap<String>, to: TextMap<String>) -> Seq<Seq<char>> {
    from.order().filter(is_modified(from, to))
}

/// The last table of a name.
pub open spec fn last_table(tables: Seq<TableChecksum>, name: Seq<char>) -> Option<TableChecksum>
    decreases tables.len(),
{
    if tables.len() == 0 {
        None
    } else if tables.last().table_name@ == name {
        Some(tables.last())
    } else {
        last_table(tables.drop_last(), name)
    }
}

/// The last chunk of an index.
pub open spec fn last_chunk(chunks: Seq<ChunkChecksum>, index: usize) -> Option<ChunkChecksum>
    decreases chunks.len(),
{
    if chunks.len() == 0 {
        None
    } else if chunks.last().chunk_index == index {
        Some(chunks.last())
    } else {
        last_chunk(chunks.drop_last(), index)
    }
}

/// The rows of a chunk that the other table's chunk of the same index does not have; all of them
/// where there is no such chunk.
pub open spec fn chunk_missing(chunk: ChunkChecksum, others: Seq<ChunkChecksum>) -> Seq<Seq<char>> {
    match last_chunk(others, chunk.chunk_index) {
        Some(other) => missing_rows(chunk.row_hashes, other.row_hashes),
        None => chunk.row_hashes.order(),
    }
}

/// The rows that the other table's chunk of the same index has and this chunk has not.
pub open spec fn chunk_extra(chunk: ChunkChecksum, others: Seq<ChunkChecksum>) -> Seq<Seq<char>> {
    match last_chunk(others, chunk.chunk_index) {
        Some(other) => missing_rows(other.row_hashes, chunk.row_hashes),
        None => Seq::empty(),
    }
}

/// The rows that have another hash in the other table's chunk of the same index.
pub open spec fn chunk_modified(chunk: ChunkChecksum, others: Seq<ChunkChecksum>) -> Seq<Seq<char>> {
    match last_chunk(others, chunk.chunk_index) {
        Some(other) => modified_rows(chunk.row_hashes, other.row_hashes),
        None => Seq::empty(),
    }
}

/// Whether a chunk differs from the other table's chunk of the same index, or there is none.
pub open spec fn chunk_differs(chunk: ChunkChecksum, others: Seq<ChunkChecksum>) -> bool {
    ||| last_chunk(others, chunk.chunk_index) is None
    ||| chunk_missing(chunk, others).len() > 0
    ||| chunk_extra(chunk, others).len() > 0
    ||| chunk_modified(chunk, others).len() > 0
}

/// What comparing the chunks of two tables finds.
pub struct ChunkFindings {
    pub differing: Seq<usize>,
    pub missing: Seq<Seq<char>>,
    pub extra: Seq<Seq<char>>,
    pub modified: Seq<Seq<char>>,
}

/// Nothing found.
pub open spec fn no_findings() -> ChunkFindings {
    ChunkFindings {
        differing: Seq::empty(),
        missing: Seq::empty(),
        extra: Seq::empty(),
        modified: Seq::empty(),
    }
}

/// What is found of reference chunks, in their order.
pub open spec fn reference_findings(
    chunks: Seq<ChunkChecksum>,
    others: Seq<ChunkChecksum>,
) -> ChunkFindings
    decreases chunks.len(),
{
    if chunks.len() == 0 {
        no_findings()
    } else {
        let before = reference_findings(chunks.drop_last(), others);
        let chunk = chunks.last();
        ChunkFindings {
            differing: if chunk_differs(chunk, others) {
                before.differing.push(chunk.chunk_index)
            } else {
                before.differing
            },
            missing: before.missing + chunk_missing(chunk, others),
            extra: before.extra + chunk_extra(chunk, others),
            modified: before.modified + chunk_modified(chunk, others),
        }
    }
}

/// What is found of target chunks that the reference has no chunk of the same index for, after
/// what was found of the reference chunks.
pub open spec fn target_findings(
    found: ChunkFindings,
    chunks: Seq<ChunkChecksum>,
    others: Seq<ChunkChecksum>,
) -> ChunkFindings
    decreases others.len(),
{
    if others.len() == 0 {
        found
    } else {
        let before = target_findings(found, chunks, others.drop_last());
        let other = others.last();
        if last_chunk(chunks, other.chunk_index) is None {
            ChunkFindings {
                differing: before.differing.push(other.chunk_index),
                extra: before.extra + other.row_hashes.order(),
                ..before
            }
        } else {
            before
        }
    }
}

/// What comparing the chunks of a reference table with those of a target table finds.
pub open spec fn findings(chunks: Seq<ChunkChecksum>, others: Seq<ChunkChecksum>) -> ChunkFindings {
    target_findings(reference_findings(chunks, others), chunks, others)
}

/// The rows of chunks, in their order.
pub open spec fn all_rows(chunks: Seq<ChunkChecksum>) -> Seq<Seq<char>>
    decreases chunks.len(),
{
    if chunks.len() == 0 {
        Seq::empty()
    } else {
        all_rows(chunks.drop_last()) + chunks.last().row_hashes.order()
    }
}

/// The summary of a reference table: nothing where nothing differs from the target table, and
/// all of it where there is no such table.
pub open spec fn table_summary(table: TableChecksum, targets: Seq<TableChecksum>) -> Option<SummaryView> {
    match last_table(targets, table.table_name@) {
        None => Some(
            SummaryView {
                table_name: table.table_name@,
                differing_chunks: Seq::new(table.chunks@.len(), |i: int| i as usize),
                missing_in_target: all_rows(table.chunks@),
                missing_in_reference: Seq::empty(),
                modified: Seq::empty(),
            },
        ),
        Some(target) => {
            let found = findings(table.chunks@, target.chunks@);
            if found.differing.len() == 0 && found.missing.len() == 0 && found.extra.len() == 0
                && found.modified.len() == 0 {
                None
            } else {
                Some(
                    SummaryView {
                        table_name: table.table_name@,
                        differing_chunks: found.differing,
                        missing_in_target: found.missing,
                        missing_in_reference: found.extra,
                        modified: found.modified,
                    },
                )
            }
        },
    }
}

/// The summaries of the reference tables, in their order.
pub open spec fn summaries_of(
    tables: Seq<TableChecksum>,
    targets: Seq<TableChecksum>,
) -> Seq<SummaryView>
    decreases tables.len(),
{
    if tables.len() == 0 {
        Seq::empty()
    } else {
        let before = summaries_of(tables.drop_last(), targets);
        match table_summary(tables.last(), targets) {
            Some(summary) => before.push(summary),
            None => before,
        }
    }
}

/// What summaries say.
pub open spec fn summary_views(summaries: Seq<TableDiffSummary>) -> Seq<SummaryView> {
    summaries.map_values(|s: TableDiffSummary| s@)
}

/// The texts of a list that was extended are those of its parts.
proof fn lemma_texts_add(a: Seq<String>, b: Seq<String>)
    ensures
        text::texts(a + b) == text::texts(a) + text::texts(b),
{
    assert(text::texts(a + b) =~= text::texts(a) + text::texts(b));
}

/// The keys of a map.
fn keys_of(map: &TextMap<String>) -> (r: Vec<String>)
    ensures
        text::texts(r@) == map.order(),
{
    let mut keys: Vec<String> = Vec::new();
    let n: usize = map.len();
    for i in 0..n
        invariant
            n == map.order().len(),
            text::texts(keys@) == map.order().take(i as int),
    {
        let ghost before = keys@;
        keys.push(map.key_at(i).to_owned());
        proof {
            assert(text::texts(keys@) =~= text::texts(before).push(map.order()[i as int]));
            assert(text::texts(keys@) =~= map.order().take(i + 1));
        }
    }
    assert(map.order().take(n as int) =~= map.order());
    keys
}

/// The rows of the first map that are not in the second.
fn find_missing(from: &TextMap<String>, to: &TextMap<String>) -> (r: Vec<String>)
    ensures
        text::texts(r@) == missing_rows(*from, *to),
{
    let mut keys: Vec<String> = Vec::new();
    let n: usize = from.len();
    let ghost keep = is_missing(*from, *to);
    proof {
        reveal(Seq::filter);
        assert(text::texts(keys@) =~= from.order().take(0).filter(keep));
    }
    for i in 0..n
        invariant
            n == from.order().len(),
            keep == is_missing(*from, *to),
            text::texts(keys@) == from.order().take(i as int).filter(keep),
    {
        let ghost before = keys@;
        let key = from.key_at(i);
        if !to.contains_key(key) {
            keys.push(key.to_owned());
            assert(text::texts(keys@) =~= text::texts(before).push(key@));
        }
        proof {
            from.order().take(i as int).lemma_filter_push(key@, keep);
            assert(from.order().take(i + 1) =~= from.order().take(i as int).push(key@));
        }
    }
    assert(from.order().take(n as int) =~= from.order());
    keys
}

/// The rows that have different hashes in two maps.
fn find_modified(from: &TextMap<String>, to: &TextMap<String>) -> (r: Vec<String>)
    ensures
        text::texts(r@) == modified_rows(*from, *to),
{
    let mut keys: Vec<String> = Vec::new();
    let n: usize = from.len();
    let ghost keep = is_modified(*from, *to);
    proof {
        reveal(Seq::filter);
        assert(text::texts(keys@) =~= from.order().take(0).filter(keep));
    }
    for i in 0..n
        invariant
            n == from.order().len(),
            keep == is_modified(*from, *to),
            text::texts(keys@) == from.order().take(i as int).filter(keep),
    {
        let ghost before = keys@;
        let key = from.key_at(i);
        match to.get(key) {
            Some(hash) => {
                if *hash != *from.value_at(i) {
                    keys.push(key.to_owned());
                    assert(text::texts(keys@) =~= text::texts(before).push(key@));
                }
            },
            None => {},
        }
        proof {
            from.order().take(i as int).lemma_filter_push(key@, keep);
            assert(from.order().take(i + 1) =~= from.order().take(i as int).push(key@));
        }
    }
    assert(from.order().take(n as int) =~= from.order());
    keys
}

/// The place of the last chunk of an index.
fn find_chunk(chunks: &[ChunkChecksum], index: usize) -> (r: Option<usize>)
    ensures
        match r {
            Some(i) => i < chunks@.len() && last_chunk(chunks@, index) == Some(chunks@[i as int]),
            None => last_chunk(chunks@, index) is None,
        },
{
    let mut i: usize = chunks.len();
    assert(chunks@.take(i as int) =~= chunks@);
    while i > 0
        invariant
            i <= chunks@.len(),
            last_chunk(chunks@, index) == last_chunk(chunks@.take(i as int), index),
        decreases i,
    {
        assert(chunks@.take(i as int).drop_last() =~= chunks@.take(i - 1));
        assert(chunks@.take(i as int).last() == chunks@[i - 1]);
        if chunks[i - 1].chunk_index == index {
            return Some(i - 1);
        }
        i = i - 1;
    }
    None
}

/// The place of the last table of a name.
fn find_table(tables: &[TableChecksum], name: &str) -> (r: Option<usize>)
    ensures
        match r {
            Some(i) => i < tables@.len() && last_table(tables@, name@) == Some(tables@[i as int]),
            None => last_table(tables@, name@) is None,
        },
{
    let mut i: usize = tables.len();
    assert(tables@.take(i as int) =~= tables@);
    while i > 0
        invariant
            i <= tables@.len(),
            last_table(tables@, name@) == last_table(tables@.take(i as int), name@),
        decreases i,
    {
        assert(tables@.take(i as int).drop_last() =~= tables@.take(i - 1));
        assert(tables@.take(i as int).last() == tables@[i - 1]);
        if text::same_text(tables[i - 1].table_name.as_str(), name) {
            return Some(i - 1);
        }
        i = i - 1;
    }
    None
}

/// Whether a summary holds what was found.
spec fn holds_findings(summary: TableDiffSummary, found: ChunkFindings) -> bool {
    &&& summary.differing_chunks@ == found.differing
    &&& text::texts(summary.missing_in_target@) == found.missing
    &&& text::texts(summary.missing_in_reference@) == found.extra
    &&& text::texts(summary.modified@) == found.modified
}

/// Adds to a summary what is found of a reference chunk.
fn compare_chunk(chunk: &ChunkChecksum, others: &[ChunkChecksum], summary: &mut TableDiffSummary)
    ensures
        final(summary).table_name == old(summary).table_name,
        final(summary).differing_chunks@ == if chunk_differs(*chunk, others@) {
            old(summary).differing_chunks@.push(chunk.chunk_index)
        } else {
            old(summary).differing_chunks@
        },
        text::texts(final(summary).missing_in_target@) == text::texts(old(summary).missing_in_target@)
            + chunk_missing(*chunk, others@),
        text::texts(final(summary).missing_in_reference@) == text::texts(
            old(summary).missing_in_reference@,
        ) + chunk_extra(*chunk, others@),
        text::texts(final(summary).modified@) == text::texts(old(summary).modified@) + chunk_modified(
            *chunk,
            others@,
        ),
{
    match find_chunk(others, chunk.chunk_index) {
        None => {
            let mut missing = keys_of(&chunk.row_hashes);
            proof { lemma_texts_add(summary.missing_in_target@, missing@); }
            summary.differing_chunks.push(chunk.chunk_index);
            summary.missing_in_target.append(&mut missing);
            assert(text::texts(summary.missing_in_reference@) =~= text::texts(
                summary.missing_in_reference@,
            ) + Seq::<Seq<char>>::empty());
            assert(text::texts(summary.modified@) =~= text::texts(summary.modified@) + Seq::<
                Seq<char>,
            >::empty());
        },
        Some(i) => {
            let other = &others[i];
            let mut missing = find_missing(&chunk.row_hashes, &other.row_hashes);
            let mut extra = find_missing(&other.row_hashes, &chunk.row_hashes);
            let mut modified = find_modified(&chunk.row_hashes, &other.row_hashes);
            proof {
                lemma_texts_add(summary.missing_in_target@, missing@);
                lemma_texts_add(summary.missing_in_reference@, extra@);
                lemma_texts_add(summary.modified@, modified@);
                assert(text::texts(missing@).len() == missing@.len());
                assert(text::texts(extra@).len() == extra@.len());
                assert(text::texts(modified@).len() == modified@.len());
            }
            if missing.len() > 0 || extra.len() > 0 || modified.len() > 0 {
                summary.differing_chunks.push(chunk.chunk_index);
            }
            summary.missing_in_target.append(&mut missing);
            summary.missing_in_reference.append(&mut extra);
            summary.modified.append(&mut modified);
        },
    }
}

/// What comparing a reference table with a target table finds.
fn compare_tables(table: &TableChecksum, target: &TableChecksum) -> (r: TableDiffSummary)
    ensures
        r.table_name@ == table.table_name@,
        holds_findings(r, findings(table.chunks@, target.chunks@)),
{
    let mut summary = TableDiffSummary {
        table_name: table.table_name.clone(),
        differing_chunks: Vec::new(),
        missing_in_target: Vec::new(),
        missing_in_reference: Vec::new(),
        modified: Vec::new(),
    };
    let ghost chunks = table.chunks@;
    let ghost others = target.chunks@;
    proof {
        assert(text::texts(summary.missing_in_target@) =~= Seq::<Seq<char>>::empty());
        assert(text::texts(summary.missing_in_reference@) =~= Seq::<Seq<char>>::empty());
        assert(text::texts(summary.modified@) =~= Seq::<Seq<char>>::empty());
        assert(summary.differing_chunks@ =~= Seq::<usize>::empty());
    }
    for i in 0..table.chunks.len()
        invariant
            chunks == table.chunks@,
            others == target.chunks@,
            summary.table_name@ == table.table_name@,
            holds_findings(summary, reference_findings(chunks.take(i as int), others)),
    {
        compare_chunk(&table.chunks[i], target.chunks.as_slice(), &mut summary);
        assert(chunks.take(i + 1).drop_last() =~= chunks.take(i as int));
    }
    let ghost found = reference_findings(chunks, others);
    assert(chunks.take(chunks.len() as int) =~= chunks);
    assert(target_findings(found, chunks, others.take(0)) == found);
    for i in 0..target.chunks.len()
        invariant
            chunks == table.chunks@,
            others == target.chunks@,
            summary.table_name@ == table.table_name@,
            holds_findings(summary, target_findings(found, chunks, others.take(i as int))),
    {
        assert(others.take(i + 1).drop_last() =~= others.take(i as int));
        let other = &target.chunks[i];
        if find_chunk(table.chunks.as_slice(), other.chunk_index).is_none() {
            let mut extra = keys_of(&other.row_hashes);
            proof { lemma_texts_add(summary.missing_in_reference@, extra@); }
            summary.differing_chunks.push(other.chunk_index);
            summary.missing_in_reference.append(&mut extra);
        }
    }
    assert(others.take(others.len() as int) =~= others);
    summary
}

/// The summary of a table that the target does not have.
fn summarize_absent(table: &TableChecksum) -> (r: TableDiffSummary)
    ensures
        r@ == (SummaryView {
            table_name: table.table_name@,
            differing_chunks: Seq::new(table.chunks@.len(), |i: int| i as usize),
            missing_in_target: all_rows(table.chunks@),
            missing_in_reference: Seq::empty(),
            modified: Seq::empty(),
        }),
{
    let mut differing: Vec<usize> = Vec::new();
    let mut missing: Vec<String> = Vec::new();
    assert(text::texts(missing@) =~= Seq::<Seq<char>>::empty());
    for i in 0..table.chunks.len()
        invariant
            differing@ == Seq::new(i as nat, |i: int| i as usize),
            text::texts(missing@) == all_rows(table.chunks@.take(i as int)),
    {
        differing.push(i);
        let mut keys = keys_of(&table.chunks[i].row_hashes);
        proof {
            lemma_texts_add(missing@, keys@);
            assert(table.chunks@.take(i + 1).drop_last() =~= table.chunks@.take(i as int));
            assert(differing@ =~= Seq::new((i + 1) as nat, |i: int| i as usize));
        }
        missing.append(&mut keys);
    }
    assert(table.chunks@.take(table.chunks@.len() as int) =~= table.chunks@);
    let r = TableDiffSummary {
        table_name: table.table_name.clone(),
        differing_chunks: differing,
        missing_in_target: missing,
        missing_in_reference: Vec::new(),
        modified: Vec::new(),
    };
    assert(text::texts(r.missing_in_reference@) =~= Seq::<Seq<char>>::empty());
    assert(text::texts(r.modified@) =~= Seq::<Seq<char>>::empty());
    r
}

/// Compare two checksum manifests and return per-table diff summaries.
pub fn compare_checksums(
    ref_manifest: &ChecksumManifest,
    target_manifest: &ChecksumManifest,
) -> (r: Vec<TableDiffSummary>)
    ensures
        summary_views(r@) == summaries_of(ref_manifest.tables@, target_manifest.tables@),
{
    let mut summaries: Vec<TableDiffSummary> = Vec::new();
    let ghost tables = ref_manifest.tables@;
    let ghost targets = target_manifest.tables@;
    assert(summary_views(summaries@) =~= Seq::<SummaryView>::empty());
    for i in 0..ref_manifest.tables.len()
        invariant
            tables == ref_manifest.tables@,
            targets == target_manifest.tables@,
            summary_views(summaries@) == summaries_of(tables.take(i as int), targets),
    {
        let table = &ref_manifest.tables[i];
        let ghost before = summaries@;
        proof {
            assert(tables.take(i + 1).drop_last() =~= tables.take(i as int));
            assert(tables.take(i + 1).last() == *table);
        }
        match find_table(target_manifest.tables.as_slice(), table.table_name.as_str()) {
            None => {
                summaries.push(summarize_absent(table));
                proof {
                    assert(summary_views(summaries@) =~= summary_views(before).push(
                        summaries@.last()@,
                    ));
                }
            },
            Some(j) => {
                let summary = compare_tables(table, &target_manifest.tables[j]);
                let ghost view = summary@;
                if summary.differing_chunks.len() > 0 || summary.missing_in_target.len() > 0
                    || summary.missing_in_reference.len() > 0 || summary.modified.len() > 0 {
                    summaries.push(summary);
                    assert(summary_views(summaries@) =~= summary_views(before).push(view));
                }
            },
        }
    }
    assert(tables.take(tables.len() as int) =~= tables);
    summaries
}

/// Whether no two chunks have the same index, and the maps of their rows are in order.
pub open spec fn chunks_valid(chunks: Seq<ChunkChecksum>) -> bool {
    &&& forall|i: int, j: int|
        0 <= i < j < chunks.len() ==> (#[trigger] chunks[i]).chunk_index != (#[trigger] chunks[j]).chunk_index
    &&& forall|i: int| 0 <= i < chunks.len() ==> (#[trigger] chunks[i]).row_hashes.valid()
}

/// Whether there is a chunk of an index.
pub open spec fn has_chunk(chunks: Seq<ChunkChecksum>, index: usize) -> bool {
    last_chunk(chunks, index) is Some
}

/// Whether the chunk of an index has a row.
pub open spec fn has_row(chunks: Seq<ChunkChecksum>, index: usize, k: Seq<char>) -> bool {
    last_chunk(chunks, index) matches Some(chunk) && chunk.row_hashes@.contains_key(k)
}

/// The hash of a row in the chunk of an index.
pub open spec fn hash_of(chunks: Seq<ChunkChecksum>, index: usize, k: Seq<char>) -> Seq<char> {
    last_chunk(chunks, index)->0.row_hashes@[k]@
}

/// Whether a row is in the first table only.
pub open spec fn only_in(
    chunks: Seq<ChunkChecksum>,
    others: Seq<ChunkChecksum>,
    index: usize,
    k: Seq<char>,
) -> bool {
    has_row(chunks, index, k) && !has_row(others, index, k)
}

/// Whether a row is in both tables, with different hashes.
pub open spec fn changed(
    chunks: Seq<ChunkChecksum>,
    others: Seq<ChunkChecksum>,
    index: usize,
    k: Seq<char>,
) -> bool {
    &&& has_row(chunks, index, k)
    &&& has_row(others, index, k)
    &&& hash_of(chunks, index, k) != hash_of(others, index, k)
}

/// Whether a row differs between two tables.
pub open spec fn row_differs(
    chunks: Seq<ChunkChecksum>,
    others: Seq<ChunkChecksum>,
    index: usize,
    k: Seq<char>,
) -> bool {
    ||| only_in(chunks, others, index, k)
    ||| only_in(others, chunks, index, k)
    ||| changed(chunks, others, index, k)
}

/// Whether two tables have the same chunks, with the same rows and hashes.
pub open spec fn same_contents(chunks: Seq<ChunkChecksum>, others: Seq<ChunkChecksum>) -> bool {
    &&& forall|index: usize| #[trigger] has_chunk(chunks, index) == has_chunk(others, index)
    &&& forall|index: usize, k: Seq<char>| !#[trigger] only_in(chunks, others, index, k)
    &&& forall|index: usize, k: Seq<char>| !#[trigger] only_in(others, chunks, index, k)
    &&& forall|index: usize, k: Seq<char>| !#[trigger] changed(chunks, others, index, k)
}

/// The last chunk of an index is a chunk of that index; where there is none, no chunk has it.
pub proof fn lemma_last_chunk(chunks: Seq<ChunkChecksum>, index: usize)
    ensures
        last_chunk(chunks, index) matches Some(c) ==> chunks.contains(c) && c.chunk_index == index,
        last_chunk(chunks, index) is None ==> forall|i: int|
            0 <= i < chunks.len() ==> (#[trigger] chunks[i]).chunk_index != index,
    decreases chunks.len(),
{
    if chunks.len() > 0 && chunks.last().chunk_index != index {
        let front = chunks.drop_last();
        lemma_last_chunk(front, index);
        if let Some(c) = last_chunk(front, index) {
            let i = front.index_of(c);
            assert(chunks[i] == c);
        }
        if last_chunk(front, index) is None {
            assert forall|i: int| 0 <= i < chunks.len() implies (#[trigger] chunks[i]).chunk_index
                != index by {
                if i < front.len() {
                    assert(front[i] == chunks[i]);
                }
            }
        }
    } else if chunks.len() > 0 {
        assert(chunks[chunks.len() - 1] == chunks.last());
    }
}

/// Each chunk is the last one of its index where no two have the same.
pub proof fn lemma_unique_chunk(chunks: Seq<ChunkChecksum>, i: int)
    requires
        chunks_valid(chunks),
        0 <= i < chunks.len(),
    ensures
        last_chunk(chunks, chunks[i].chunk_index) == Some(chunks[i]),
{
    let index = chunks[i].chunk_index;
    lemma_last_chunk(chunks, index);
    let c = last_chunk(chunks, index)->0;
    let j = chunks.index_of(c);
    assert(0 <= j < chunks.len() && chunks[j] == c);
    assert(i == j);
}

/// The rows that a map has more than another, and those with other hashes.
pub proof fn lemma_missing_rows(from: TextMap<String>, to: TextMap<String>, k: Seq<char>)
    requires
        from.valid(),
    ensures
        missing_rows(from, to).contains(k) <==> from@.contains_key(k) && !to@.contains_key(k),
        modified_rows(from, to).contains(k) <==> from@.contains_key(k) && to@.contains_key(k)
            && from@[k]@ != to@[k]@,
{
    assert(from@.contains_key(k) <==> from.order().contains(k));
    collections::lemma_filter_has(from.order(), is_missing(from, to), k);
    collections::lemma_filter_has(from.order(), is_modified(from, to), k);
}

/// What is found of the first `n` reference chunks, row by row.
proof fn lemma_reference_findings(
    chunks: Seq<ChunkChecksum>,
    others: Seq<ChunkChecksum>,
    n: int,
    k: Seq<char>,
)
    requires
        0 <= n <= chunks.len(),
    ensures
        reference_findings(chunks.take(n), others).missing.contains(k) <==> exists|i: int|
            0 <= i < n && chunk_missing(#[trigger] chunks[i], others).contains(k),
        reference_findings(chunks.take(n), others).extra.contains(k) <==> exists|i: int|
            0 <= i < n && chunk_extra(#[trigger] chunks[i], others).contains(k),
        reference_findings(chunks.take(n), others).modified.contains(k) <==> exists|i: int|
            0 <= i < n && chunk_modified(#[trigger] chunks[i], others).contains(k),
    decreases n,
{
    if n > 0 {
        lemma_reference_findings(chunks, others, n - 1, k);
        assert(chunks.take(n).drop_last() =~= chunks.take(n - 1));
        let before = reference_findings(chunks.take(n - 1), others);
        let chunk = chunks[n - 1];
        assert(chunks.take(n).last() == chunk);
        vstd::seq_lib::lemma_seq_concat_contains_all_elements(before.missing, chunk_missing(chunk, others), k);
        vstd::seq_lib::lemma_seq_concat_contains_all_elements(before.extra, chunk_extra(chunk, others), k);
        vstd::seq_lib::lemma_seq_concat_contains_all_elements(before.modified, chunk_modified(chunk, others), k);
    }
}

/// What is found of the first `n` reference chunks, chunk by chunk.
proof fn lemma_reference_differing(
    chunks: Seq<ChunkChecksum>,
    others: Seq<ChunkChecksum>,
    n: int,
    index: usize,
)
    requires
        0 <= n <= chunks.len(),
    ensures
        reference_findings(chunks.take(n), others).differing.contains(index) <==> exists|i: int|
            0 <= i < n && (#[trigger] chunks[i]).chunk_index == index && chunk_differs(chunks[i], others),
    decreases n,
{
    if n > 0 {
        lemma_reference_differing(chunks, others, n - 1, index);
        assert(chunks.take(n).drop_last() =~= chunks.take(n - 1));
        let before = reference_findings(chunks.take(n - 1), others).differing;
        let chunk = chunks[n - 1];
        assert(chunks.take(n).last() == chunk);
        vstd::seq_lib::lemma_seq_contains_after_push(before, chunk.chunk_index, index);
    }
}

/// What is found of the first `n` target chunks that the reference lacks.
proof fn lemma_target_findings(
    found: ChunkFindings,
    chunks: Seq<ChunkChecksum>,
    others: Seq<ChunkChecksum>,
    n: int,
    k: Seq<char>,
    index: usize,
)
    requires
        0 <= n <= others.len(),
    ensures
        ({
            let all = target_findings(found, chunks, others.take(n));
            &&& all.missing == found.missing
            &&& all.modified == found.modified
            &&& all.extra.contains(k) <==> found.extra.contains(k) || exists|i: int|
                0 <= i < n && last_chunk(chunks, (#[trigger] others[i]).chunk_index) is None
                    && others[i].row_hashes.order().contains(k)
            &&& all.differing.contains(index) <==> found.differing.contains(index) || exists|i: int|
                0 <= i < n && (#[trigger] others[i]).chunk_index == index && last_chunk(chunks, index) is None
        }),
    decreases n,
{
    if n > 0 {
        lemma_target_findings(found, chunks, others, n - 1, k, index);
        assert(others.take(n).drop_last() =~= others.take(n - 1));
        let before = target_findings(found, chunks, others.take(n - 1));
        let other = others[n - 1];
        assert(others.take(n).last() == other);
        vstd::seq_lib::lemma_seq_concat_contains_all_elements(before.extra, other.row_hashes.order(), k);
        vstd::seq_lib::lemma_seq_contains_after_push(before.differing, other.chunk_index, index);
    }
}

/// A row is reported as missing in the target exactly where the reference has it and the target
/// has it not, as missing in the reference exactly the other way round, and as modified exactly
/// where both have it with different hashes.
pub proof fn rows_are_reported_where_they_differ(
    chunks: Seq<ChunkChecksum>,
    others: Seq<ChunkChecksum>,
    k: Seq<char>,
)
    requires
        chunks_valid(chunks),
        chunks_valid(others),
    ensures
        findings(chunks, others).missing.contains(k) <==> exists|index: usize|
            #[trigger] only_in(chunks, others, index, k),
        findings(chunks, others).extra.contains(k) <==> exists|index: usize|
            #[trigger] only_in(others, chunks, index, k),
        findings(chunks, others).modified.contains(k) <==> exists|index: usize|
            #[trigger] changed(chunks, others, index, k),
{
    let found = reference_findings(chunks, others);
    let all = findings(chunks, others);
    assert(chunks.take(chunks.len() as int) =~= chunks);
    assert(others.take(others.len() as int) =~= others);
    lemma_reference_findings(chunks, others, chunks.len() as int, k);
    lemma_target_findings(found, chunks, others, others.len() as int, k, 0);
    assert forall|i: int| 0 <= i < chunks.len() implies {
        let c = #[trigger] chunks[i];
        &&& chunk_missing(c, others).contains(k) <==> only_in(chunks, others, c.chunk_index, k)
        &&& chunk_modified(c, others).contains(k) <==> changed(chunks, others, c.chunk_index, k)
        &&& chunk_extra(c, others).contains(k) <==> only_in(others, chunks, c.chunk_index, k)
    } by {
        let c = chunks[i];
        lemma_unique_chunk(chunks, i);
        lemma_last_chunk(others, c.chunk_index);
        assert(c.row_hashes@.contains_key(k) <==> c.row_hashes.order().contains(k));
        if let Some(o) = last_chunk(others, c.chunk_index) {
            let j = others.index_of(o);
            assert(others[j].row_hashes.valid());
            lemma_missing_rows(c.row_hashes, o.row_hashes, k);
            lemma_missing_rows(o.row_hashes, c.row_hashes, k);
        }
    }
    assert forall|index: usize| #[trigger] only_in(chunks, others, index, k) implies all.missing.contains(k) by {
        lemma_last_chunk(chunks, index);
        let i = chunks.index_of(last_chunk(chunks, index)->0);
        assert(chunk_missing(chunks[i], others).contains(k));
    }
    assert forall|index: usize| #[trigger] changed(chunks, others, index, k) implies all.modified.contains(k) by {
        lemma_last_chunk(chunks, index);
        let i = chunks.index_of(last_chunk(chunks, index)->0);
        assert(chunk_modified(chunks[i], others).contains(k));
    }
    assert forall|index: usize| #[trigger] only_in(others, chunks, index, k) implies all.extra.contains(k) by {
        lemma_last_chunk(chunks, index);
        lemma_last_chunk(others, index);
        let j = others.index_of(last_chunk(others, index)->0);
        assert(others[j].row_hashes@.contains_key(k) <==> others[j].row_hashes.order().contains(k));
        if last_chunk(chunks, index) is Some {
            let i = chunks.index_of(last_chunk(chunks, index)->0);
            assert(chunk_extra(chunks[i], others).contains(k));
        } else {
            assert(others[j].chunk_index == index);
        }
    }
    if all.extra.contains(k) && !found.extra.contains(k) {
        let j = choose|j: int|
            0 <= j < others.len() && last_chunk(chunks, (#[trigger] others[j]).chunk_index) is None
                && others[j].row_hashes.order().contains(k);
        lemma_unique_chunk(others, j);
        assert(others[j].row_hashes@.contains_key(k) <==> others[j].row_hashes.order().contains(k));
        assert(only_in(others, chunks, others[j].chunk_index, k));
    }
}

/// A chunk is reported exactly where one table lacks it or some row of it differs.
pub proof fn chunks_are_reported_where_they_differ(
    chunks: Seq<ChunkChecksum>,
    others: Seq<ChunkChecksum>,
    index: usize,
)
    requires
        chunks_valid(chunks),
        chunks_valid(others),
    ensures
        findings(chunks, others).differing.contains(index) <==> (has_chunk(chunks, index) != has_chunk(
            others,
            index,
        ) || exists|k: Seq<char>| #[trigger] row_differs(chunks, others, index, k)),
{
    let found = reference_findings(chunks, others);
    let all = findings(chunks, others);
    assert(chunks.take(chunks.len() as int) =~= chunks);
    assert(others.take(others.len() as int) =~= others);
    lemma_reference_differing(chunks, others, chunks.len() as int, index);
    lemma_target_findings(found, chunks, others, others.len() as int, Seq::empty(), index);
    lemma_last_chunk(chunks, index);
    lemma_last_chunk(others, index);
    if let Some(c) = last_chunk(chunks, index) {
        let i = chunks.index_of(c);
        assert forall|a: int| 0 <= a < chunks.len() && (#[trigger] chunks[a]).chunk_index == index implies a
            == i by {}
        assert(found.differing.contains(index) <==> chunk_differs(c, others));
        if let Some(o) = last_chunk(others, index) {
            let j = others.index_of(o);
            assert(chunks[i].row_hashes.valid());
            assert(others[j].row_hashes.valid());
            let missing = missing_rows(c.row_hashes, o.row_hashes);
            let extra = missing_rows(o.row_hashes, c.row_hashes);
            let modified = modified_rows(c.row_hashes, o.row_hashes);
            assert forall|k: Seq<char>| missing.contains(k) <==> #[trigger] only_in(
                chunks,
                others,
                index,
                k,
            ) by {
                lemma_missing_rows(c.row_hashes, o.row_hashes, k);
            }
            assert forall|k: Seq<char>| modified.contains(k) <==> #[trigger] changed(
                chunks,
                others,
                index,
                k,
            ) by {
                lemma_missing_rows(c.row_hashes, o.row_hashes, k);
            }
            assert forall|k: Seq<char>| extra.contains(k) <==> #[trigger] only_in(
                others,
                chunks,
                index,
                k,
            ) by {
                lemma_missing_rows(o.row_hashes, c.row_hashes, k);
            }
            if missing.len() > 0 {
                assert(missing.contains(missing[0]));
                assert(only_in(chunks, others, index, missing[0]));
                assert(row_differs(chunks, others, index, missing[0]));
            }
            if extra.len() > 0 {
                assert(extra.contains(extra[0]));
                assert(only_in(others, chunks, index, extra[0]));
                assert(row_differs(chunks, others, index, extra[0]));
            }
            if modified.len() > 0 {
                assert(modified.contains(modified[0]));
                assert(changed(chunks, others, index, modified[0]));
                assert(row_differs(chunks, others, index, modified[0]));
            }
            if exists|k: Seq<char>| #[trigger] row_differs(chunks, others, index, k) {
                let k = choose|k: Seq<char>| #[trigger] row_differs(chunks, others, index, k);
                assert(missing.contains(k) || extra.contains(k) || modified.contains(k));
            }
        }
    } else {
        assert(!found.differing.contains(index));
        if let Some(o) = last_chunk(others, index) {
            let j = others.index_of(o);
            assert(others[j].chunk_index == index);
        }
    }
}

/// A table that both sides have is left out of the summaries exactly where it has the same
/// contents on both.
pub proof fn summary_is_absent_where_nothing_differs(table: TableChecksum, targets: Seq<TableChecksum>)
    requires
        last_table(targets, table.table_name@) is Some,
        chunks_valid(table.chunks@),
        chunks_valid(last_table(targets, table.table_name@)->0.chunks@),
    ensures
        table_summary(table, targets) is None <==> same_contents(
            table.chunks@,
            last_table(targets, table.table_name@)->0.chunks@,
        ),
{
    let chunks = table.chunks@;
    let others = last_table(targets, table.table_name@)->0.chunks@;
    let all = findings(chunks, others);
    if table_summary(table, targets) is None {
        assert forall|index: usize| #[trigger] has_chunk(chunks, index) == has_chunk(others, index) by {
            chunks_are_reported_where_they_differ(chunks, others, index);
        }
        assert forall|index: usize, k: Seq<char>| !#[trigger] only_in(chunks, others, index, k) by {
            rows_are_reported_where_they_differ(chunks, others, k);
        }
        assert forall|index: usize, k: Seq<char>| !#[trigger] only_in(others, chunks, index, k) by {
            rows_are_reported_where_they_differ(chunks, others, k);
        }
        assert forall|index: usize, k: Seq<char>| !#[trigger] changed(chunks, others, index, k) by {
            rows_are_reported_where_they_differ(chunks, others, k);
        }
    }
    if same_contents(chunks, others) {
        if all.differing.len() > 0 {
            chunks_are_reported_where_they_differ(chunks, others, all.differing[0]);
            assert(all.differing.contains(all.differing[0]));
            assert(has_chunk(chunks, all.differing[0]) == has_chunk(others, all.differing[0]));
            let k = choose|k: Seq<char>| #[trigger] row_differs(chunks, others, all.differing[0], k);
            assert(row_differs(chunks, others, all.differing[0], k));
        }
        if all.missing.len() > 0 {
            rows_are_reported_where_they_differ(chunks, others, all.missing[0]);
            assert(all.missing.contains(all.missing[0]));
        }
        if all.extra.len() > 0 {
            rows_are_reported_where_they_differ(chunks, others, all.extra[0]);
            assert(all.extra.contains(all.extra[0]));
        }
        if all.modified.len() > 0 {
            rows_are_reported_where_they_differ(chunks, others, all.modified[0]);
            assert(all.modified.contains(all.modified[0]));
        }
    }
}

/// Whether no two tables have the same name, and the chunks of each are in order.
pub open spec fn tables_valid(tables: Seq<TableChecksum>) -> bool {
    &&& forall|i: int, j: int|
        0 <= i < j < tables.len() ==> (#[trigger] tables[i]).table_name@ != (#[trigger] tables[j]).table_name@
    &&& forall|i: int| 0 <= i < tables.len() ==> chunks_valid((#[trigger] tables[i]).chunks@)
}

/// Each table is the last one of its name where no two have the same.
pub proof fn lemma_unique_table(tables: Seq<TableChecksum>, n: int, i: int)
    requires
        tables_valid(tables),
        0 <= i < n <= tables.len(),
    ensures
        last_table(tables.take(n), tables[i].table_name@) == Some(tables[i]),
    decreases n,
{
    assert(tables.take(n).last() == tables[n - 1]);
    if i < n - 1 {
        assert(tables.take(n).drop_last() =~= tables.take(n - 1));
        assert(tables[i].table_name@ != tables[n - 1].table_name@);
        lemma_unique_table(tables, n - 1, i);
    }
}

/// A manifest compared with itself has no differences.
pub proof fn identical_manifests_do_not_differ(tables: Seq<TableChecksum>)
    requires
        tables_valid(tables),
    ensures
        summaries_of(tables, tables).len() == 0,
{
    lemma_no_summaries(tables, tables.len() as int);
    assert(tables.take(tables.len() as int) =~= tables);
}

proof fn lemma_no_summaries(tables: Seq<TableChecksum>, n: int)
    requires
        tables_valid(tables),
        0 <= n <= tables.len(),
    ensures
        summaries_of(tables.take(n), tables).len() == 0,
    decreases n,
{
    if n > 0 {
        lemma_no_summaries(tables, n - 1);
        let table = tables[n - 1];
        assert(tables.take(n).drop_last() =~= tables.take(n - 1));
        assert(tables.take(n).last() == table);
        assert(tables.take(tables.len() as int) =~= tables);
        lemma_unique_table(tables, tables.len() as int, n - 1);
        assert(chunks_valid(table.chunks@));
        summary_is_absent_where_nothing_differs(table, tables);
        assert(same_contents(table.chunks@, table.chunks@));
    }
}

/// The column by which a strategy tells chunks apart, if it does.
pub open spec fn range_column(strategy: ChunkStrategy) -> Option<Seq<char>> {
    match strategy {
        ChunkStrategy::Md5TimestampChunk { timestamp_column, .. } => Some(timestamp_column@),
        _ => None,
    }
}

/// Build the query for the hashes of a table: those of a chunk where the table is split by time,
/// and else those of all rows. Where a condition is given, it is for the rows of which it holds.
pub fn build_checksum_query(
    table_name: &str,
    columns: &[ColumnInfo],
    pk_cols: &[ColumnInfo],
    strategy: &ChunkStrategy,
    filter: Option<&str>,
) -> (r: String)
    ensures
        r@ == sql_gen::hash_statement(
            table_name@,
            columns@,
            pk_cols@,
            range_column(*strategy),
            chunk_strategy::text_of(filter),
        ),
{
    let range = match strategy {
        ChunkStrategy::Md5TimestampChunk { timestamp_column, .. } => Some(timestamp_column.as_str()),
        _ => None,
    };
    sql_gen::build_hash_query(table_name, columns, pk_cols, range, filter)
}

/// Whether a chunk holds the hashes of rows, under the bounds that the strategy gives it where it
/// splits by time.
pub open spec fn holds_hashes(
    chunk: ChunkChecksum,
    index: int,
    strategy: ChunkStrategy,
    offsets: Seq<i64>,
    rows: Seq<HashedKey>,
) -> bool {
    &&& chunk.chunk_index == index
    &&& table_diff::holds_texts(chunk.row_hashes@, table_diff::md5_map(rows))
    &&& match strategy {
        ChunkStrategy::Md5TimestampChunk { min_ts, max_ts, .. } => {
            &&& chunk.chunk_start@ == instant::timestamp_text(
                chunk_strategy::chunk_start(min_ts, offsets, index),
                min_ts.nanos() as nat,
                ' ',
            )
            &&& chunk.chunk_end@ == instant::timestamp_text(
                chunk_strategy::chunk_end(min_ts, max_ts, offsets, index),
                chunk_strategy::chunk_end_nanos(min_ts, max_ts, offsets, index) as nat,
                ' ',
            )
        },
        _ => chunk.chunk_start@.len() == 0 && chunk.chunk_end@.len() == 0,
    }
}

/// The checksums for all chunks of a single table, from the hashes of the rows of each chunk.
/// The chunks start the given seconds after the start of the range. A table that is not split by
/// time is one chunk. There is no answer where a chunk would leave the range of a timestamp.
pub fn compute_table_checksums(
    table_name: &str,
    analysis: &TableAnalysis,
    offsets: &[i64],
    hashes: &[Vec<HashedKey>],
) -> (r: Option<TableChecksum>)
    requires
        hashes@.len() == if range_column(analysis.strategy) is Some {
            offsets@.len() as int
        } else {
            1
        },
    ensures
        r is Some <==> chunk_strategy::strategy_in_range(analysis.strategy, offsets@),
        r matches Some(r) ==> {
            &&& r.table_name@ == config::table_part(table_name@)
            &&& r.strategy@ == types::strategy_text(analysis.strategy)
            &&& r.row_count == analysis.row_count
            &&& chunk_strategy::owned_text_of(r.timestamp_column) == chunk_strategy::owned_text_of(
                analysis.timestamp_column,
            )
            &&& r.chunks@.len() == hashes@.len()
            &&& forall|i: int|
                0 <= i < r.chunks@.len() ==> holds_hashes(
                    #[trigger] r.chunks@[i],
                    i,
                    analysis.strategy,
                    offsets@,
                    hashes@[i]@,
                )
        },
{
    let split = matches!(analysis.strategy, ChunkStrategy::Md5TimestampChunk { .. });
    let bounds = match chunk_strategy::strategy_bounds(&analysis.strategy, offsets) {
        Some(bounds) => bounds,
        None => {
            return None;
        },
    };
    let mut chunks: Vec<ChunkChecksum> = Vec::new();
    for i in 0..hashes.len()
        invariant
            split == (range_column(analysis.strategy) is Some),
            split ==> hashes@.len() == offsets@.len(),
            chunk_strategy::are_bounds(bounds@, analysis.strategy, offsets@),
            chunks@.len() == i,
            forall|j: int|
                0 <= j < i ==> holds_hashes(
                    #[trigger] chunks@[j],
                    j,
                    analysis.strategy,
                    offsets@,
                    hashes@[j]@,
                ),
    {
        let (chunk_start, chunk_end) = if split {
            (bounds[i].start.plain_text(), bounds[i].end.plain_text())
        } else {
            (String::new(), String::new())
        };
        let row_hashes = table_diff::build_md5_map(hashes[i].as_slice());
        chunks.push(ChunkChecksum { chunk_index: i, chunk_start, chunk_end, row_hashes });
    }
    let (_, table) = config::parse_table_name(table_name);
    let timestamp_column = match &analysis.timestamp_column {
        Some(column) => Some(column.clone()),
        None => None,
    };
    Some(
        TableChecksum {
            table_name: table.to_owned(),
            strategy: analysis.strategy.to_text(),
            row_count: analysis.row_count,
            timestamp_column,
            chunks,
        },
    )
}

/// Whether a table has been analyzed.
pub open spec fn is_analyzed(tables: Seq<String>, analyses: Seq<TableAnalysis>) -> spec_fn(int) -> bool {
    |i: int| estimation::analysis_of(analyses, tables[i]@) is Some
}

/// The tables whose checksums can be computed, by their places: those that have been analyzed,
/// each with its analysis.
pub fn checksum_tasks(tables: &[String], analyses: &[TableAnalysis]) -> (r: Vec<(usize, TableAnalysis)>)
    ensures
        r@.map_values(|t: (usize, TableAnalysis)| t.0 as int) == collections::picked(
            tables@.len(),
            is_analyzed(tables@, analyses@),
        ),
        forall|k: int|
            0 <= k < r@.len() ==> estimation::analysis_of(
                analyses@,
                tables@[(#[trigger] r@[k]).0 as int]@,
            ) == Some(r@[k].1),
{
    let ghost keep = is_analyzed(tables@, analyses@);
    let ghost place = |t: (usize, TableAnalysis)| t.0 as int;
    let mut tasks: Vec<(usize, TableAnalysis)> = Vec::new();
    assert(tasks@.map_values(place) =~= collections::picked(0, keep));
    for i in 0..tables.len()
        invariant
            keep == is_analyzed(tables@, analyses@),
            place == (|t: (usize, TableAnalysis)| t.0 as int),
            tasks@.map_values(place) == collections::picked(i as nat, keep),
            forall|k: int|
                0 <= k < tasks@.len() ==> estimation::analysis_of(
                    analyses@,
                    tables@[(#[trigger] tasks@[k]).0 as int]@,
                ) == Some(tasks@[k].1),
    {
        let ghost before = tasks@;
        match estimation::find_analysis(analyses, tables[i].as_str()) {
            Some(analysis) => {
                assert(keep(i as int));
                tasks.push((i, analysis.duplicate()));
                assert(tasks@.map_values(place) =~= before.map_values(place).push(i as int));
            },
            None => {
                assert(!keep(i as int));
            },
        }
    }
    tasks
}

/// The manifest of a database, from the checksums of its tables.
pub fn compute_db_checksums(
    tables: Vec<TableChecksum>,
    db_name: Option<&str>,
    schema: Option<&str>,
    created_at: String,
) -> (r: ChecksumManifest)
    ensures
        r.tables == tables,
        chunk_strategy::owned_text_of(r.db_name) == chunk_strategy::text_of(db_name),
        chunk_strategy::owned_text_of(r.schema) == chunk_strategy::text_of(schema),
        r.created_at == created_at,
{
    ChecksumManifest {
        db_name: match db_name {
            Some(name) => Some(name.to_owned()),
            None => None,
        },
        schema: match schema {
            Some(name) => Some(name.to_owned()),
            None => None,
        },
        created_at,
        tables,
    }
}

} // verus!
