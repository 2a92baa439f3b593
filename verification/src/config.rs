//! What to compare, and how.

use vstd::prelude::*;

use crate::collections::{NameSet, TextMap};
use crate::text;
use crate::types::Real64;

verus! {

/// A pair of tables to compare.
#[derive(Clone, Debug)]
pub struct TablePair {
    /// Reference table name (schema.table or just table).
    pub reference: String,
    /// Target table name (schema.table or just table).
    pub target: String,
}

impl TablePair {
    /// The same pair again.
    pub fn duplicate(&self) -> (r: TablePair)
        ensures
            r == *self,
    {
        TablePair { reference: self.reference.clone(), target: self.target.clone() }
    }
}

/// Progress event emitted during diff processing.
#[derive(Clone, Debug)]
pub enum ProgressEvent {
    /// Starting comparison for a table pair.
    TableStart { table: String, table_index: usize, total_tables: usize },
    /// Row processed during INSERT/UPDATE phase.
    RowProcessed { table: String, row_number: u64 },
    /// INSERT/UPDATE phase completed for a table.
    TableDiffComplete { table: String, inserts: u64, updates: u64 },
    /// DELETE phase completed for a table.
    TableDeleteComplete { table: String, deletes: u64 },
    /// Sorting tables by foreign key dependencies.
    SortingDependencies,
    /// Starting schema comparison phase.
    SchemaCompareStart,
    /// Schema comparison result for a table.
    SchemaCompareResult { table: String, result: String },
    /// Starting ETC estimation phase.
    EstimationStart { total_tables: usize },
    /// ETC estimation complete for a single table.
    EstimationTableDone { table: String, estimated_seconds: Real64, strategy: String },
    /// ETC estimation complete for all tables.
    EstimationComplete { total_estimated_seconds: Real64 },
    /// Progress within a table's MD5 timestamp chunk comparison.
    ChunkProgress { table: String, chunk_index: usize, total_chunks: usize },
}

impl ProgressEvent {
    /// Whether the event is worth a line of its own: of the rows only each thousandth is.
    pub fn is_shown(&self) -> (r: bool)
        ensures
            r == match *self {
                ProgressEvent::RowProcessed { row_number, .. } => row_number % 1000 == 0,
                _ => true,
            },
    {
        match self {
            ProgressEvent::RowProcessed { row_number, .. } => *row_number % 1000 == 0,
            _ => true,
        }
    }
}

/// Configuration for a data diff operation.
#[derive(Debug)]
pub struct DiffConfig {
    /// Explicit table pairs to compare. If empty, tables are discovered from schemas.
    pub tables: Vec<TablePair>,
    /// Directory where output files are written.
    pub output_dir: String,
    /// Path for the master SQL script.
    pub output_file: String,
    /// Whether to generate DELETE statements for rows missing in reference.
    pub include_delete: bool,
    /// Number of rows to fetch per chunk for comparison. Default: 25.
    pub chunk_size: usize,
    /// Column names to ignore during comparison (case-insensitive).
    pub columns_to_ignore: NameSet,
    /// Alternate PK columns per table: table_name -> list of column names.
    pub alternate_keys: TextMap<Vec<String>>,
    /// Exclude the real PK columns from INSERT when alternate keys are used.
    pub exclude_real_pk: bool,
    /// Exclude ignored columns from generated SQL output.
    pub exclude_ignored_columns: bool,
    /// Additional WHERE condition applied to all reference table queries.
    /// Do not include the WHERE keyword itself.
    pub table_where: Option<String>,
    /// Write all SQL into a single file instead of separate per-table files.
    pub single_file: bool,
    /// Reference schema for auto-discovering tables. When set and `tables` is empty,
    /// all tables from this schema are compared.
    pub reference_schema: Option<String>,
    /// Target schema to compare against. Used with `reference_schema`.
    pub target_schema: Option<String>,
    /// Table names to exclude from comparison (case-insensitive).
    pub exclude_tables: NameSet,
    /// Sort generated scripts by foreign key dependencies.
    /// INSERT/UPDATE scripts sorted for insert order, DELETE scripts for delete order.
    /// Default: true.
    pub check_dependencies: bool,
    /// Controls whether identity/auto-increment columns are included in generated SQL.
    /// `None` = use default behavior (exclude identity from INSERT),
    /// `Some(true)` = always include, `Some(false)` = always exclude.
    pub include_identity_columns: Option<bool>,
    /// Override auto-detect timestamp column name for chunking large tables.
    pub timestamp_column: Option<String>,
    /// Force run even if ETC exceeds `max_etc_seconds`.
    pub force: bool,
    /// Emit progress events (default: true).
    pub show_progress: bool,
    /// Reference database name for schema loading.
    pub reference_db_name: Option<String>,
    /// Target database name for schema loading.
    pub target_db_name: Option<String>,
    /// Maximum estimated time in seconds before aborting (default: 10800 = 3h).
    pub max_etc_seconds: Real64,
    /// Whether all SQL is written to a stream instead of files. The stream receives the same
    /// content that would otherwise go into the master script and individual table files.
    pub to_stream: bool,
}

impl DiffConfig {
    pub fn new(output_file: String, output_dir: String) -> (r: DiffConfig)
        ensures
            r.output_file == output_file,
            r.output_dir == output_dir,
            r.tables@.len() == 0,
            !r.include_delete,
            r.chunk_size == 25,
            r.columns_to_ignore@ == Set::<Seq<char>>::empty(),
            r.alternate_keys@ == Map::<Seq<char>, Vec<String>>::empty(),
            !r.exclude_real_pk,
            !r.exclude_ignored_columns,
            r.table_where is None,
            !r.single_file,
            r.reference_schema is None,
            r.target_schema is None,
            r.exclude_tables@ == Set::<Seq<char>>::empty(),
            r.check_dependencies,
            r.include_identity_columns is None,
            r.timestamp_column is None,
            !r.force,
            r.show_progress,
            r.reference_db_name is None,
            r.target_db_name is None,
            r.max_etc_seconds.bits == 0x40c5_1800_0000_0000,
            r.max_etc_seconds.display@ == "10800"@,
            r.max_etc_seconds.debug@ == "10800.0"@,
            !r.to_stream,
    {
        DiffConfig {
            tables: Vec::new(),
            output_dir,
            output_file,
            include_delete: false,
            chunk_size: 25,
            columns_to_ignore: NameSet::new(),
            alternate_keys: TextMap::new(),
            exclude_real_pk: false,
            exclude_ignored_columns: false,
            table_where: None,
            single_file: false,
            reference_schema: None,
            target_schema: None,
            exclude_tables: NameSet::new(),
            check_dependencies: true,
            include_identity_columns: None,
            timestamp_column: None,
            force: false,
            show_progress: true,
            reference_db_name: None,
            target_db_name: None,
            max_etc_seconds: Real64 {
                bits: 0x40c5_1800_0000_0000,
                display: "10800".to_owned(),
                debug: "10800.0".to_owned(),
            },
            to_stream: false,
        }
    }

    /// The alternate keys of a table: those for its name in the target, else those for its name
    /// in the reference.
    pub fn alternate_keys_for(&self, target: &str, reference: &str) -> (r: Option<Vec<String>>)
        ensures
            list_texts(r) == alternate_keys_of_table(self.alternate_keys@, target@, reference@),
    {
        match self.alternate_keys.get(target) {
            Some(keys) => Some(copy_texts(keys.as_slice())),
            None => match self.alternate_keys.get(reference) {
                Some(keys) => Some(copy_texts(keys.as_slice())),
                None => None,
            },
        }
    }
}

/// The texts of an optional list of strings.
pub open spec fn list_texts(list: Option<Vec<String>>) -> Option<Seq<Seq<char>>> {
    match list {
        Some(l) => Some(text::texts(l@)),
        None => None,
    }
}

/// The alternate keys of a table: those for its name in the target, else those for its name in
/// the reference.
pub open spec fn alternate_keys_of_table(
    keys: Map<Seq<char>, Vec<String>>,
    target: Seq<char>,
    reference: Seq<char>,
) -> Option<Seq<Seq<char>>> {
    if keys.contains_key(target) {
        Some(text::texts(keys[target]@))
    } else if keys.contains_key(reference) {
        Some(text::texts(keys[reference]@))
    } else {
        None
    }
}

/// The same strings again.
pub fn copy_texts(strings: &[String]) -> (r: Vec<String>)
    ensures
        text::texts(r@) == text::texts(strings@),
{
    let mut out: Vec<String> = Vec::new();
    for i in 0..strings.len()
        invariant
            text::texts(out@) == text::texts(strings@).take(i as int),
    {
        let ghost before = out@;
        out.push(strings[i].clone());
        proof {
            assert(text::texts(out@) =~= text::texts(before).push(strings@[i as int]@));
            assert(text::texts(out@) =~= text::texts(strings@).take(i + 1));
        }
    }
    assert(text::texts(out@) =~= text::texts(strings@));
    out
}

/// The same string again, if there is one.
pub fn copy_option(s: &Option<String>) -> (r: Option<String>)
    ensures
        r == *s,
{
    match s {
        Some(t) => Some(t.clone()),
        None => None,
    }
}

/// The same pairs again.
pub fn copy_pairs(pairs: &[TablePair]) -> (r: Vec<TablePair>)
    ensures
        r@ == pairs@,
{
    let mut out: Vec<TablePair> = Vec::new();
    for i in 0..pairs.len()
        invariant
            out@ == pairs@.take(i as int),
    {
        out.push(pairs[i].duplicate());
        assert(out@ =~= pairs@.take(i + 1));
    }
    assert(out@ =~= pairs@);
    out
}

/// Whether identity columns are written, from the flags that ask for it and against it.
pub fn identity_choice(wanted: bool, unwanted: bool) -> (r: Option<bool>)
    ensures
        r == if wanted {
            Some(true)
        } else if unwanted {
            Some(false)
        } else {
            None
        },
{
    if wanted {
        Some(true)
    } else if unwanted {
        Some(false)
    } else {
        None
    }
}

/// The schema of a possibly schema-qualified table name: what stands before the first dot.
pub open spec fn schema_part(name: Seq<char>) -> Option<Seq<char>> {
    if text::length_before(name, '.') < name.len() {
        Some(text::part_before(name, '.'))
    } else {
        None
    }
}

/// The table of a possibly schema-qualified table name: what stands after the first dot, or the
/// whole name where there is no dot.
pub open spec fn table_part(name: Seq<char>) -> Seq<char> {
    if text::length_before(name, '.') < name.len() {
        text::part_after(name, '.')
    } else {
        name
    }
}

/// Parse a possibly schema-qualified table name into (schema, table).
/// Returns (None, name) if no schema is specified.
pub fn parse_table_name(name: &str) -> (r: (Option<&str>, &str))
    ensures
        r.0 is Some <==> schema_part(name@) is Some,
        r.0 matches Some(schema) ==> schema_part(name@) == Some(schema@),
        r.1@ == table_part(name@),
{
    let chars = text::chars_of(name);
    let n: usize = chars.len();
    match text::find_char(chars.as_slice(), '.') {
        Some(i) => {
            let schema = name.substring_char(0, i);
            let table = name.substring_char(i + 1, n);
            assert(schema@ =~= text::part_before(name@, '.'));
            assert(table@ =~= text::part_after(name@, '.'));
            (Some(schema), table)
        },
        None => (None, name),
    }
}

/// The schema and the table of a name, with a dot between them, are the name; a name without a
/// schema is its table, and no schema holds a dot.
pub proof fn parsed_name_is_whole(name: Seq<char>)
    ensures
        match schema_part(name) {
            Some(schema) => schema + seq!['.'] + table_part(name) == name && !schema.contains('.'),
            None => table_part(name) == name && !name.contains('.'),
        },
{
    text::lemma_length_before(name, '.');
    if let Some(schema) = schema_part(name) {
        assert(schema + seq!['.'] + table_part(name) =~= name);
    }
}

/// The pair that a text stands for: a reference and a target with a colon between, or one table
/// that is both.
pub open spec fn pair_of(s: Seq<char>) -> (Seq<char>, Seq<char>) {
    if text::length_before(s, ':') < s.len() {
        (text::part_before(s, ':'), text::part_after(s, ':'))
    } else {
        (s, s)
    }
}

/// The text before the first `c` and the text after it.
pub fn split_once(s: &str, c: char) -> (r: Option<(String, String)>)
    ensures
        r is Some <==> text::length_before(s@, c) < s@.len(),
        r matches Some(p) ==> p.0@ == text::part_before(s@, c) && p.1@ == text::part_after(s@, c),
{
    let chars = text::chars_of(s);
    let n: usize = chars.len();
    match text::find_char(chars.as_slice(), c) {
        Some(i) => {
            let first = text::string_of(&chars[0..i]);
            let second = text::string_of(&chars[i + 1..n]);
            assert(first@ =~= text::part_before(s@, c));
            assert(second@ =~= text::part_after(s@, c));
            Some((first, second))
        },
        None => None,
    }
}

/// Parse table pair strings ("ref:target" or "table") into `TablePair` values.
pub fn parse_table_pairs(raw: &[String]) -> (r: Vec<TablePair>)
    ensures
        r@.len() == raw@.len(),
        forall|i: int| 0 <= i < raw@.len() ==> (#[trigger] r@[i]).reference@ == pair_of(raw@[i]@).0
            && r@[i].target@ == pair_of(raw@[i]@).1,
{
    let mut pairs: Vec<TablePair> = Vec::new();
    for i in 0..raw.len()
        invariant
            pairs@.len() == i,
            forall|j: int| 0 <= j < i ==> (#[trigger] pairs@[j]).reference@ == pair_of(raw@[j]@).0
                && pairs@[j].target@ == pair_of(raw@[j]@).1,
    {
        match split_once(raw[i].as_str(), ':') {
            Some((reference, target)) => {
                pairs.push(TablePair { reference, target });
            },
            None => {
                pairs.push(TablePair { reference: raw[i].clone(), target: raw[i].clone() });
            },
        }
    }
    pairs
}

/// The columns that an alternate key names: what stands after the colon, split at commas and
/// trimmed.
pub open spec fn key_columns(s: Seq<char>) -> Seq<Seq<char>> {
    text::split_text(text::part_after(s, ':'), ',').map_values(|c: Seq<char>| text::trimmed(c))
}

/// The alternate keys that texts of the form "table:col1,col2" name. Of two for the same table
/// the later one stands.
pub open spec fn alternate_keys_of(raw: Seq<Seq<char>>) -> Map<Seq<char>, Seq<Seq<char>>>
    decreases raw.len(),
{
    if raw.len() == 0 {
        Map::empty()
    } else {
        alternate_keys_of(raw.drop_last()).insert(
            text::part_before(raw.last(), ':'),
            key_columns(raw.last()),
        )
    }
}

/// Whether a map holds lists of strings with the given texts.
pub open spec fn holds_lists(
    map: Map<Seq<char>, Vec<String>>,
    lists: Map<Seq<char>, Seq<Seq<char>>>,
) -> bool {
    &&& forall|k: Seq<char>| #[trigger] map.contains_key(k) <==> lists.contains_key(k)
    &&& forall|k: Seq<char>| #[trigger] map.contains_key(k) ==> text::texts(map[k]@) == lists[k]
}

/// Parse alternate key strings ("table:col1,col2") into a map. The first string without a colon
/// is refused.
pub fn parse_alternate_keys(raw: &[String]) -> (r: Result<TextMap<Vec<String>>, String>)
    ensures
        r is Ok <==> forall|i: int|
            0 <= i < raw@.len() ==> text::length_before((#[trigger] raw@[i])@, ':') < raw@[i]@.len(),
        r matches Ok(map) ==> holds_lists(map@, alternate_keys_of(text::texts(raw@))),
        r matches Err(s) ==> exists|i: int|
            #![trigger raw@[i]]
            0 <= i < raw@.len() && s == raw@[i] && text::length_before(s@, ':') == s@.len() && (forall|
                j: int,
            |
                0 <= j < i ==> text::length_before((#[trigger] raw@[j])@, ':') < raw@[j]@.len()),
{
    let mut map: TextMap<Vec<String>> = TextMap::new();
    for i in 0..raw.len()
        invariant
            forall|j: int|
                0 <= j < i ==> text::length_before((#[trigger] raw@[j])@, ':') < raw@[j]@.len(),
            holds_lists(map@, alternate_keys_of(text::texts(raw@).take(i as int))),
    {
        proof { text::lemma_length_before(raw@[i as int]@, ':'); }
        match split_once(raw[i].as_str(), ':') {
            None => {
                return Err(raw[i].clone());
            },
            Some((table, columns)) => {
                let parts = text::split(columns.as_str(), ',');
                let mut trimmed: Vec<String> = Vec::new();
                for k in 0..parts.len()
                    invariant
                        text::texts(trimmed@) == text::texts(parts@).map_values(
                            |c: Seq<char>| text::trimmed(c),
                        ).take(k as int),
                {
                    let ghost before = trimmed@;
                    trimmed.push(text::trim(parts[k].as_str()));
                    proof {
                        let all = text::texts(parts@).map_values(|c: Seq<char>| text::trimmed(c));
                        assert(text::texts(trimmed@) =~= text::texts(before).push(all[k as int]));
                        assert(text::texts(trimmed@) =~= all.take(k + 1));
                    }
                }
                let ghost before = map@;
                assert(text::texts(trimmed@) =~= key_columns(raw@[i as int]@));
                map.insert(table, trimmed);
                proof {
                    let all = text::texts(raw@);
                    assert(all.take(i + 1).drop_last() =~= all.take(i as int));
                    assert(all.take(i + 1).last() == raw@[i as int]@);
                    let lists = alternate_keys_of(all.take(i as int));
                    assert forall|key: Seq<char>|
                        #[trigger] map@.contains_key(key) <==> alternate_keys_of(
                            all.take(i + 1),
                        ).contains_key(key) by {
                        assert(before.contains_key(key) <==> lists.contains_key(key));
                    }
                    assert forall|key: Seq<char>| #[trigger] map@.contains_key(key) implies text::texts(
                        map@[key]@,
                    ) == alternate_keys_of(all.take(i + 1))[key] by {
                        if key != table@ {
                            assert(before.contains_key(key));
                        }
                    }
                }
            },
        }
    }
    assert(text::texts(raw@).take(raw@.len() as int) =~= text::texts(raw@));
    Ok(map)
}

/// The language of a locale such as "en_US.UTF-8": what stands before the first dot and the
/// first underscore.
pub fn language_of(locale: &str) -> (r: String)
    ensures
        r@ == text::part_before(text::part_before(locale@, '.'), '_'),
{
    let chars = text::chars_of(locale);
    proof {
        text::lemma_length_before(locale@, '.');
        text::lemma_length_before(text::part_before(locale@, '.'), '_');
    }
    let n: usize = match text::find_char(chars.as_slice(), '.') {
        Some(i) => i,
        None => chars.len(),
    };
    let head = &chars[0..n];
    assert(head@ =~= text::part_before(locale@, '.'));
    let m: usize = match text::find_char(head, '_') {
        Some(i) => i,
        None => head.len(),
    };
    text::string_of(&head[0..m])
}

} // verus!
