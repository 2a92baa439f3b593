//! Tables, their columns and keys, and the order that foreign keys put them in.

use vstd::prelude::*;

use crate::collections;
use crate::collections::NameSet;
use crate::error::DataDiffError;
use crate::outside;
use crate::text;
use crate::types::{ColumnInfo, PgType};

verus! {

/// The column type that a type name of the catalog stands for; text where it is not known.
pub open spec fn type_of_name(s: Seq<char>) -> PgType {
    if s == "bool"@ || s == "boolean"@ {
        PgType::Bool
    } else if s == "int2"@ || s == "smallint"@ {
        PgType::Int2
    } else if s == "int4"@ || s == "integer"@ || s == "int"@ || s == "serial"@ {
        PgType::Int4
    } else if s == "int8"@ || s == "bigint"@ || s == "bigserial"@ {
        PgType::Int8
    } else if s == "float4"@ || s == "real"@ {
        PgType::Float4
    } else if s == "float8"@ || s == "double precision"@ {
        PgType::Float8
    } else if s == "numeric"@ || s == "decimal"@ {
        PgType::Numeric
    } else if s == "text"@ {
        PgType::Text
    } else if s == "varchar"@ || s == "character varying"@ {
        PgType::Varchar
    } else if s == "char"@ || s == "character"@ || s == "bpchar"@ {
        PgType::Bpchar
    } else if s == "bytea"@ {
        PgType::Bytea
    } else if s == "timestamp"@ || s == "timestamp without time zone"@ {
        PgType::Timestamp
    } else if s == "timestamptz"@ || s == "timestamp with time zone"@ {
        PgType::Timestamptz
    } else if s == "date"@ {
        PgType::Date
    } else if s == "time"@ || s == "time without time zone"@ {
        PgType::Time
    } else if s == "uuid"@ {
        PgType::Uuid
    } else if s == "json"@ {
        PgType::Json
    } else if s == "jsonb"@ {
        PgType::Jsonb
    } else if s == "oid"@ {
        PgType::Oid
    } else if s == "name"@ {
        PgType::Name
    } else {
        PgType::Text
    }
}

/// Map a PostgreSQL type name to a column type.
pub fn resolve_pg_type(s: &str) -> (r: PgType)
    ensures
        r == type_of_name(s@),
{
    if text::same_text(s, "bool") || text::same_text(s, "boolean") {
        PgType::Bool
    } else if text::same_text(s, "int2") || text::same_text(s, "smallint") {
        PgType::Int2
    } else if text::same_text(s, "int4") || text::same_text(s, "integer") || text::same_text(
        s,
        "int",
    ) || text::same_text(s, "serial") {
        PgType::Int4
    } else if text::same_text(s, "int8") || text::same_text(s, "bigint") || text::same_text(
        s,
        "bigserial",
    ) {
        PgType::Int8
    } else if text::same_text(s, "float4") || text::same_text(s, "real") {
        PgType::Float4
    } else if text::same_text(s, "float8") || text::same_text(s, "double precision") {
        PgType::Float8
    } else if text::same_text(s, "numeric") || text::same_text(s, "decimal") {
        PgType::Numeric
    } else if text::same_text(s, "text") {
        PgType::Text
    } else if text::same_text(s, "varchar") || text::same_text(s, "character varying") {
        PgType::Varchar
    } else if text::same_text(s, "char") || text::same_text(s, "character") || text::same_text(
        s,
        "bpchar",
    ) {
        PgType::Bpchar
    } else if text::same_text(s, "bytea") {
        PgType::Bytea
    } else if text::same_text(s, "timestamp") || text::same_text(s, "timestamp without time zone") {
        PgType::Timestamp
    } else if text::same_text(s, "timestamptz") || text::same_text(s, "timestamp with time zone") {
        PgType::Timestamptz
    } else if text::same_text(s, "date") {
        PgType::Date
    } else if text::same_text(s, "time") || text::same_text(s, "time without time zone") {
        PgType::Time
    } else if text::same_text(s, "uuid") {
        PgType::Uuid
    } else if text::same_text(s, "json") {
        PgType::Json
    } else if text::same_text(s, "jsonb") {
        PgType::Jsonb
    } else if text::same_text(s, "oid") {
        PgType::Oid
    } else if text::same_text(s, "name") {
        PgType::Name
    } else {
        PgType::Text
    }
}

/// What the catalog says of a column.
#[derive(Clone, Debug)]
pub struct CatalogColumn {
    pub column_name: String,
    pub udt_name: String,
    pub is_identity: String,
    pub column_default: Option<String>,
}

/// Whether one of the names is the given one, ASCII letters compared without case.
pub open spec fn names_match(names: Seq<String>, name: Seq<char>) -> bool {
    exists|i: int| 0 <= i < names.len() && text::ascii_lower((#[trigger] names[i])@) == text::ascii_lower(name)
}

/// Whether one of the names is the given one, ASCII letters compared without case.
pub fn any_name_matches(names: &[String], name: &str) -> (r: bool)
    ensures
        r == names_match(names@, name@),
{
    for i in 0..names.len()
        invariant
            forall|j: int| 0 <= j < i ==> text::ascii_lower((#[trigger] names@[j])@) != text::ascii_lower(name@),
    {
        if text::eq_ignore_ascii_case(names[i].as_str(), name) {
            return true;
        }
    }
    false
}

/// Whether values of a column are generated: it is an identity column, or its default takes the
/// next value of a sequence.
pub open spec fn is_generated(column: CatalogColumn) -> bool {
    ||| column.is_identity@ == "YES"@
    ||| (column.column_default matches Some(d) && "nextval("@.is_prefix_of(d@))
}

/// Whether a column is the one that the catalog describes, at the given place.
pub open spec fn describes(
    column: ColumnInfo,
    catalog: CatalogColumn,
    pk_names: Seq<String>,
    ordinal: int,
) -> bool {
    &&& column.name@ == catalog.column_name@
    &&& column.pg_type == type_of_name(catalog.udt_name@)
    &&& column.is_pk == names_match(pk_names, catalog.column_name@)
    &&& column.is_identity == is_generated(catalog)
    &&& column.ordinal == ordinal
}

/// Column metadata for a table, including PK and identity information, from what the catalog
/// says of its columns in their order and the names of its primary key columns. A table without
/// columns is not there.
pub fn get_columns(
    schema_qualified_name: &str,
    rows: &[CatalogColumn],
    pk_names: &[String],
) -> (r: Result<Vec<ColumnInfo>, DataDiffError>)
    ensures
        r is Ok <==> rows@.len() > 0,
        r matches Ok(columns) ==> columns@.len() == rows@.len() && forall|i: int|
            0 <= i < rows@.len() ==> describes(#[trigger] columns@[i], rows@[i], pk_names@, i),
        r matches Err(e) ==> e matches DataDiffError::TableNotFound(t) && t@ == schema_qualified_name@,
{
    if rows.len() == 0 {
        return Err(DataDiffError::TableNotFound(schema_qualified_name.to_owned()));
    }
    let mut columns: Vec<ColumnInfo> = Vec::new();
    for i in 0..rows.len()
        invariant
            columns@.len() == i,
            forall|j: int| 0 <= j < i ==> describes(#[trigger] columns@[j], rows@[j], pk_names@, j),
    {
        let row = &rows[i];
        let from_sequence = match &row.column_default {
            Some(d) => text::starts_with(d.as_str(), "nextval("),
            None => false,
        };
        columns.push(
            ColumnInfo {
                name: row.column_name.clone(),
                pg_type: resolve_pg_type(row.udt_name.as_str()),
                is_pk: any_name_matches(pk_names, row.column_name.as_str()),
                is_identity: text::same_text(row.is_identity.as_str(), "YES") || from_sequence,
                ordinal: i,
            },
        );
    }
    Ok(columns)
}

/// Which columns make up the key: those that the alternate keys name where there are any, else
/// those of the primary key.
pub open spec fn is_key_column(
    columns: Seq<ColumnInfo>,
    alternate_keys: Option<Seq<String>>,
) -> spec_fn(int) -> bool {
    |i: int|
        match alternate_keys {
            Some(keys) => if keys.len() > 0 {
                names_match(keys, columns[i].name@)
            } else {
                columns[i].is_pk
            },
            None => columns[i].is_pk,
        }
}

/// The columns that make up the key, in the order of the table.
pub open spec fn key_columns(
    columns: Seq<ColumnInfo>,
    alternate_keys: Option<Seq<String>>,
) -> Seq<ColumnInfo> {
    collections::picked(columns.len(), is_key_column(columns, alternate_keys)).map_values(
        |i: int| columns[i],
    )
}

/// The names of the columns of the primary key.
pub open spec fn real_pk_names(columns: Seq<ColumnInfo>) -> Seq<Seq<char>> {
    key_columns(columns, None).map_values(|c: ColumnInfo| c.name@)
}

/// What an optional list of strings holds.
pub open spec fn list_of(keys: Option<&[String]>) -> Option<Seq<String>> {
    match keys {
        Some(k) => Some(k@),
        None => None,
    }
}

/// Resolve which columns to use as PK: alternate keys if provided, else real PK.
/// Returns (pk_columns, real_pk_column_names).
pub fn resolve_pk_columns(
    columns: &[ColumnInfo],
    alternate_keys: Option<&[String]>,
) -> (r: (Vec<ColumnInfo>, Vec<String>))
    ensures
        r.0@ == key_columns(columns@, list_of(alternate_keys)),
        text::texts(r.1@) == real_pk_names(columns@),
{
    let ghost keys = list_of(alternate_keys);
    let ghost column_of = |i: int| columns@[i];
    let mut pk_cols: Vec<ColumnInfo> = Vec::new();
    let mut real_pk: Vec<String> = Vec::new();
    proof {
        assert(pk_cols@ =~= collections::picked(0, is_key_column(columns@, keys)).map_values(column_of));
        assert(text::texts(real_pk@) =~= collections::picked(0, is_key_column(columns@, None)).map_values(
            column_of,
        ).map_values(|c: ColumnInfo| c.name@));
    }
    for i in 0..columns.len()
        invariant
            keys == list_of(alternate_keys),
            column_of == (|i: int| columns@[i]),
            pk_cols@ == collections::picked(i as nat, is_key_column(columns@, keys)).map_values(column_of),
            text::texts(real_pk@) == collections::picked(
                i as nat,
                is_key_column(columns@, None),
            ).map_values(column_of).map_values(|c: ColumnInfo| c.name@),
    {
        let column = &columns[i];
        let is_key = match alternate_keys {
            Some(names) => {
                if names.len() > 0 {
                    any_name_matches(names, column.name.as_str())
                } else {
                    column.is_pk
                }
            },
            None => column.is_pk,
        };
        assert(is_key == is_key_column(columns@, keys)(i as int));
        assert(column.is_pk == is_key_column(columns@, None)(i as int));
        let ghost pk_before = pk_cols@;
        let ghost real_before = real_pk@;
        if is_key {
            pk_cols.push(column.duplicate());
        }
        if column.is_pk {
            real_pk.push(column.name.clone());
        }
        proof {
            let a = collections::picked(i as nat, is_key_column(columns@, keys));
            let b = collections::picked(i as nat, is_key_column(columns@, None));
            assert(a.push(i as int).map_values(column_of) =~= a.map_values(column_of).push(*column));
            assert(b.push(i as int).map_values(column_of) =~= b.map_values(column_of).push(*column));
            assert(b.map_values(column_of).push(*column).map_values(|c: ColumnInfo| c.name@)
                =~= b.map_values(column_of).map_values(|c: ColumnInfo| c.name@).push(column.name@));
            if column.is_pk {
                assert(text::texts(real_pk@) =~= text::texts(real_before).push(column.name@));
            }
        }
    }
    (pk_cols, real_pk)
}

/// Foreign key dependency: `table` depends on `references_table`.
#[derive(Clone, Debug)]
pub struct FkDependency {
    pub table: String,
    pub references_table: String,
}

/// Whether a foreign key of a table refers to another, both given by their lowercase names.
pub open spec fn depends_on(deps: Seq<FkDependency>, table: Seq<char>, parent: Seq<char>) -> bool {
    exists|i: int|
        0 <= i < deps.len() && outside::lowercase_text((#[trigger] deps[i]).table@) == table
            && outside::lowercase_text(deps[i].references_table@) == parent
}

/// Whether a table depends on none of the tables.
pub open spec fn is_free(names: Set<Seq<char>>, deps: Seq<FkDependency>, table: Seq<char>) -> bool {
    forall|p: Seq<char>| names.contains(p) ==> !#[trigger] depends_on(deps, table, p)
}

/// Whether a table is not placed yet, and all tables that it depends on are.
pub open spec fn is_ready(
    names: Set<Seq<char>>,
    deps: Seq<FkDependency>,
    placed: Seq<Seq<char>>,
    table: Seq<char>,
) -> bool {
    &&& names.contains(table)
    &&& !placed.contains(table)
    &&& forall|p: Seq<char>| names.contains(p) && #[trigger] depends_on(deps, table, p) ==> placed.contains(p)
}

/// Which of two tables that are ready comes first: one that depends on none, and among equals
/// the one with the greater name.
pub open spec fn goes_first(
    names: Set<Seq<char>>,
    deps: Seq<FkDependency>,
    a: Seq<char>,
    b: Seq<char>,
) -> bool {
    if is_free(names, deps, a) != is_free(names, deps, b) {
        is_free(names, deps, a)
    } else {
        text::text_before(b, a)
    }
}

/// Whether a table is the next to be placed.
pub open spec fn is_next(
    names: Set<Seq<char>>,
    deps: Seq<FkDependency>,
    placed: Seq<Seq<char>>,
    table: Seq<char>,
) -> bool {
    &&& is_ready(names, deps, placed, table)
    &&& forall|u: Seq<char>|
        #[trigger] is_ready(names, deps, placed, u) && u != table ==> goes_first(names, deps, table, u)
}

/// Whether tables are in the order of their dependencies: the first `sorted` are each the next
/// one to be placed after those before it, then none is ready any more, and what is left over,
/// because dependencies go round in a circle, follows by name.
pub open spec fn in_dependency_order(
    names: Set<Seq<char>>,
    deps: Seq<FkDependency>,
    order: Seq<Seq<char>>,
    sorted: int,
) -> bool {
    &&& 0 <= sorted <= order.len()
    &&& order.no_duplicates()
    &&& forall|k: Seq<char>| #[trigger] names.contains(k) <==> order.contains(k)
    &&& forall|p: int| 0 <= p < sorted ==> is_next(names, deps, order.take(p), #[trigger] order[p])
    &&& forall|t: Seq<char>| !#[trigger] is_ready(names, deps, order.take(sorted), t)
    &&& forall|i: int, j: int|
        sorted <= i < j < order.len() ==> text::text_before(#[trigger] order[i], #[trigger] order[j])
}

/// Whether tables are in the order of their dependencies, however many the circles leave over.
pub open spec fn is_dependency_order(
    names: Set<Seq<char>>,
    deps: Seq<FkDependency>,
    order: Seq<Seq<char>>,
) -> bool {
    exists|sorted: int| in_dependency_order(names, deps, order, sorted)
}

/// The lowercase names of tables in the order of their dependencies.
pub open spec fn dependency_order(names: Set<Seq<char>>, deps: Seq<FkDependency>) -> Seq<Seq<char>> {
    choose|order: Seq<Seq<char>>| is_dependency_order(names, deps, order)
}

/// The first of the tables whose lowercase name is given.
pub open spec fn spelling(tables: Seq<String>, name: Seq<char>) -> Option<Seq<char>>
    decreases tables.len(),
{
    if tables.len() == 0 {
        None
    } else if outside::lowercase_text(tables[0]@) == name {
        Some(tables[0]@)
    } else {
        spelling(tables.drop_first(), name)
    }
}

/// Lowercase names as the tables spell them. A name that no table has is left out.
pub open spec fn respelled(tables: Seq<String>, names: Seq<Seq<char>>) -> Seq<Seq<char>>
    decreases names.len(),
{
    if names.len() == 0 {
        Seq::empty()
    } else {
        let before = respelled(tables, names.drop_last());
        match spelling(tables, names.last()) {
            Some(t) => before.push(t),
            None => before,
        }
    }
}

/// Tables in the order in which rows can be inserted.
pub open spec fn insert_order(tables: Seq<String>, deps: Seq<FkDependency>) -> Seq<Seq<char>> {
    respelled(tables, dependency_order(collections::lowercase_names(tables), deps))
}

/// Whether there is an edge from a parent to a child, both given by their places.
spec fn has_edge(edges: Seq<(usize, usize)>, parent: int, child: int) -> bool {
    exists|e: int| 0 <= e < edges.len() && #[trigger] edges[e] == (parent as usize, child as usize)
}

/// Whether edges say what the dependencies say of names.
spec fn edges_match(
    names: Set<Seq<char>>,
    places: Seq<Seq<char>>,
    deps: Seq<FkDependency>,
    edges: Seq<(usize, usize)>,
) -> bool {
    &&& collections::ascending(places)
    &&& places.len() <= usize::MAX
    &&& forall|k: Seq<char>| #[trigger] names.contains(k) <==> places.contains(k)
    &&& forall|e: int| 0 <= e < edges.len() ==> (#[trigger] edges[e]).0 < places.len() && edges[e].1 < places.len()
    &&& forall|p: int, c: int|
        0 <= p < places.len() && 0 <= c < places.len() ==> (#[trigger] has_edge(edges, p, c) <==> depends_on(
            deps,
            places[c],
            places[p],
        ))
}

/// Whether the flags say which places are taken.
spec fn flags_match(order: Seq<usize>, placed: Seq<bool>) -> bool {
    &&& forall|i: int| 0 <= i < order.len() ==> (#[trigger] order[i]) < placed.len()
    &&& forall|c: int| 0 <= c < placed.len() ==> (#[trigger] placed[c] <==> order.contains(c as usize))
}

/// Whether no edge leads to a place.
spec fn is_root(edges: Seq<(usize, usize)>, c: int) -> bool {
    forall|e: int| 0 <= e < edges.len() ==> (#[trigger] edges[e]).1 != c
}

/// Whether a place is free, and all edges to it start at places that are taken.
spec fn is_open(edges: Seq<(usize, usize)>, placed: Seq<bool>, c: int) -> bool {
    &&& 0 <= c < placed.len()
    &&& !placed[c]
    &&& forall|e: int| 0 <= e < edges.len() && (#[trigger] edges[e]).1 == c ==> placed[edges[e].0 as int]
}

/// The names at places.
spec fn named(places: Seq<Seq<char>>, order: Seq<usize>) -> Seq<Seq<char>> {
    order.map_values(|i: usize| places[i as int])
}

proof fn lemma_place_of(
    names: Set<Seq<char>>,
    places: Seq<Seq<char>>,
    deps: Seq<FkDependency>,
    edges: Seq<(usize, usize)>,
    order: Seq<usize>,
    c: int,
)
    requires
        edges_match(names, places, deps, edges),
        forall|i: int| 0 <= i < order.len() ==> (#[trigger] order[i]) < places.len(),
        0 <= c < places.len(),
    ensures
        named(places, order).contains(places[c]) <==> order.contains(c as usize),
{
    collections::lemma_ascending_index(places, c);
    let all = named(places, order);
    if order.contains(c as usize) {
        let i = order.index_of(c as usize);
        assert(all[i] == places[c]);
    }
    if all.contains(places[c]) {
        let i = all.index_of(places[c]);
        assert(places[order[i] as int] == places[c]);
        collections::lemma_ascending_index(places, order[i] as int);
        assert(order[i] == c as usize);
    }
}

/// Whether a place is open is whether the table there is ready, and whether it is a root is
/// whether the table depends on none.
proof fn lemma_open_is_ready(
    names: Set<Seq<char>>,
    places: Seq<Seq<char>>,
    deps: Seq<FkDependency>,
    edges: Seq<(usize, usize)>,
    order: Seq<usize>,
    placed: Seq<bool>,
    c: int,
)
    requires
        edges_match(names, places, deps, edges),
        flags_match(order, placed),
        placed.len() == places.len(),
        0 <= c < places.len(),
    ensures
        is_ready(names, deps, named(places, order), places[c]) <==> is_open(edges, placed, c),
        is_free(names, deps, places[c]) <==> is_root(edges, c),
{
    let done = named(places, order);
    let t = places[c];
    assert(places.contains(t));
    lemma_place_of(names, places, deps, edges, order, c);
    assert forall|e: int| 0 <= e < edges.len() && (#[trigger] edges[e]).1 == c implies depends_on(
        deps,
        t,
        places[edges[e].0 as int],
    ) && names.contains(places[edges[e].0 as int]) && (placed[edges[e].0 as int] <==> done.contains(
        places[edges[e].0 as int],
    )) by {
        let p = edges[e].0 as int;
        assert(edges[e] == (p as usize, c as usize));
        assert(has_edge(edges, p, c));
        assert(places.contains(places[p]));
        lemma_place_of(names, places, deps, edges, order, p);
    }
    assert forall|p: Seq<char>| names.contains(p) && #[trigger] depends_on(deps, t, p) implies exists|e: int|
        0 <= e < edges.len() && (#[trigger] edges[e]).1 == c && places[edges[e].0 as int] == p by {
        let i = places.index_of(p);
        assert(places[i] == p);
        assert(has_edge(edges, i, c));
        let e = choose|e: int| 0 <= e < edges.len() && #[trigger] edges[e] == (i as usize, c as usize);
        assert(edges[e].1 == c && places[edges[e].0 as int] == p);
    }
}

/// The place to be taken next: of those that are open a root, else any, and among these the
/// last.
fn next_place(edges: &[(usize, usize)], placed: &[bool]) -> (r: Option<usize>)
    requires
        forall|e: int|
            0 <= e < edges@.len() ==> (#[trigger] edges@[e]).0 < placed@.len() && edges@[e].1 < placed@.len(),
    ensures
        match r {
            Some(c) => is_open(edges@, placed@, c as int) && forall|d: int|
                #[trigger] is_open(edges@, placed@, d) && d != c ==> if is_root(edges@, c as int) != is_root(
                    edges@,
                    d,
                ) {
                    is_root(edges@, c as int)
                } else {
                    d < c
                },
            None => forall|d: int| !#[trigger] is_open(edges@, placed@, d),
        },
{
    let n: usize = placed.len();
    let mut child: Vec<bool> = Vec::new();
    let mut blocked: Vec<bool> = Vec::new();
    for i in 0..n
        invariant
            child@.len() == i,
            blocked@.len() == i,
            forall|c: int| 0 <= c < i ==> !#[trigger] child@[c],
            forall|c: int| 0 <= c < i ==> !#[trigger] blocked@[c],
    {
        child.push(false);
        blocked.push(false);
    }
    for i in 0..edges.len()
        invariant
            n == placed@.len(),
            child@.len() == n,
            blocked@.len() == n,
            forall|e: int| 0 <= e < edges@.len() ==> (#[trigger] edges@[e]).0 < n && edges@[e].1 < n,
            forall|c: int|
                0 <= c < n ==> (#[trigger] child@[c] <==> exists|e: int| 0 <= e < i && (#[trigger] edges@[e]).1 == c),
            forall|c: int|
                0 <= c < n ==> (#[trigger] blocked@[c] <==> exists|e: int|
                    0 <= e < i && (#[trigger] edges@[e]).1 == c && !placed@[edges@[e].0 as int]),
    {
        let ghost child_before = child@;
        let ghost blocked_before = blocked@;
        let (p, c) = edges[i];
        child.set(c, true);
        if !placed[p] {
            blocked.set(c, true);
        }
        proof {
            assert(edges@[i as int] == (p, c));
            assert forall|d: int| 0 <= d < n implies (#[trigger] child@[d] <==> exists|e: int|
                0 <= e < i + 1 && (#[trigger] edges@[e]).1 == d) by {
                if d != c {
                    assert(child@[d] == child_before[d]);
                }
            }
            assert forall|d: int| 0 <= d < n implies (#[trigger] blocked@[d] <==> exists|e: int|
                0 <= e < i + 1 && (#[trigger] edges@[e]).1 == d && !placed@[edges@[e].0 as int]) by {
                if d != c || placed@[p as int] {
                    assert(blocked@[d] == blocked_before[d]);
                }
            }
        }
    }
    assert forall|c: int| 0 <= c < n implies (is_root(edges@, c) <==> !#[trigger] child@[c]) by {}
    assert forall|c: int| 0 <= c < n implies (#[trigger] is_open(edges@, placed@, c) <==> !placed@[c]
        && !blocked@[c]) by {}
    let mut best: Option<usize> = None;
    for i in 0..n
        invariant
            n == placed@.len(),
            child@.len() == n,
            blocked@.len() == n,
            forall|c: int| 0 <= c < n ==> (is_root(edges@, c) <==> !#[trigger] child@[c]),
            forall|c: int| 0 <= c < n ==> (#[trigger] is_open(edges@, placed@, c) <==> !placed@[c] && !blocked@[c]),
            match best {
                Some(c) => c < i && is_open(edges@, placed@, c as int) && forall|d: int|
                    d < i && #[trigger] is_open(edges@, placed@, d) && d != c ==> if is_root(
                        edges@,
                        c as int,
                    ) != is_root(edges@, d) {
                        is_root(edges@, c as int)
                    } else {
                        d < c
                    },
                None => forall|d: int| d < i ==> !#[trigger] is_open(edges@, placed@, d),
            },
    {
        assert(is_open(edges@, placed@, i as int) <==> !placed@[i as int] && !blocked@[i as int]);
        assert(is_root(edges@, i as int) <==> !child@[i as int]);
        if !placed[i] && !blocked[i] {
            match best {
                None => {
                    best = Some(i);
                },
                Some(b) => {
                    assert(is_root(edges@, b as int) <==> !child@[b as int]);
                    if !child[i] || child[b] {
                        best = Some(i);
                    }
                },
            }
        }
    }
    best
}

/// The edges that dependencies stand for, between the places of tables in a set of names.
fn edges_of(names: &NameSet, deps: &[FkDependency]) -> (r: Vec<(usize, usize)>)
    ensures
        edges_match(names@, names.order(), deps@, r@),
{
    let n = names.len();
    let ghost places = names.order();
    let mut edges: Vec<(usize, usize)> = Vec::new();
    for i in 0..deps.len()
        invariant
            names.valid(),
            n == places.len(),
            places == names.order(),
            edges_match(names@, places, deps@.take(i as int), edges@),
    {
        let ghost before = edges@;
        let child = outside::lowercase(deps[i].table.as_str());
        let parent = outside::lowercase(deps[i].references_table.as_str());
        let child_place = names.position(child.as_str());
        let parent_place = names.position(parent.as_str());
        if let Some(c) = child_place {
            if let Some(p) = parent_place {
                edges.push((p, c));
            }
        }
        proof {
            let less = deps@.take(i as int);
            let more = deps@.take(i + 1);
            assert forall|p: int, c: int| 0 <= p < places.len() && 0 <= c < places.len() implies (
            #[trigger] has_edge(edges@, p, c) <==> depends_on(more, places[c], places[p])) by {
                lemma_depends_on_more(deps@, i as int, places[c], places[p]);
                assert(has_edge(before, p, c) <==> depends_on(less, places[c], places[p]));
                if has_edge(before, p, c) {
                    let e = choose|e: int| 0 <= e < before.len() && #[trigger] before[e] == (p as usize, c as usize);
                    assert(edges@[e] == (p as usize, c as usize));
                }
                if child@ == places[c] && parent@ == places[p] {
                    assert(places.contains(places[c]) && places.contains(places[p]));
                    let pc = child_place->0 as int;
                    let pp = parent_place->0 as int;
                    collections::lemma_ascending_index(places, c);
                    collections::lemma_ascending_index(places, p);
                    collections::lemma_ascending_index(places, pc);
                    collections::lemma_ascending_index(places, pp);
                    assert(edges@[before.len() as int] == (p as usize, c as usize));
                }
                if has_edge(edges@, p, c) {
                    let e = choose|e: int| 0 <= e < edges@.len() && #[trigger] edges@[e] == (p as usize, c as usize);
                    if e < before.len() {
                        assert(before[e] == (p as usize, c as usize));
                    }
                }
            }
        }
    }
    assert(deps@.take(deps@.len() as int) == deps@);
    edges
}

proof fn lemma_depends_on_more(deps: Seq<FkDependency>, i: int, table: Seq<char>, parent: Seq<char>)
    requires
        0 <= i < deps.len(),
    ensures
        depends_on(deps.take(i + 1), table, parent) <==> depends_on(deps.take(i), table, parent) || (
        outside::lowercase_text(deps[i].table@) == table && outside::lowercase_text(
            deps[i].references_table@,
        ) == parent),
{
    let less = deps.take(i);
    let more = deps.take(i + 1);
    assert forall|j: int| 0 <= j < i implies #[trigger] less[j] == more[j] by {}
    assert(more[i] == deps[i]);
}

/// Different places below a bound are no more than the bound.
proof fn lemma_few_places(order: Seq<usize>, n: nat)
    requires
        order.no_duplicates(),
        forall|i: int| 0 <= i < order.len() ==> (#[trigger] order[i]) < n,
    ensures
        order.len() <= n,
{
    let all = order.map_values(|i: usize| i as int);
    assert forall|i: int, j: int| 0 <= i < j < all.len() implies all[i] != all[j] by {
        assert(order[i] != order[j]);
    }
    all.unique_seq_to_set();
    vstd::set_lib::lemma_int_range(0, n as int);
    let range = vstd::set_lib::set_int_range(0, n as int);
    assert(all.to_set().subset_of(range)) by {
        assert forall|x: int| all.to_set().contains(x) implies range.contains(x) by {
            let i = all.index_of(x);
            assert(order[i] < n);
        }
    }
    vstd::set_lib::lemma_len_subset(all.to_set(), range);
}

/// The place that is taken next is that of the table that is placed next.
proof fn lemma_next(
    names: Set<Seq<char>>,
    places: Seq<Seq<char>>,
    deps: Seq<FkDependency>,
    edges: Seq<(usize, usize)>,
    order: Seq<usize>,
    placed: Seq<bool>,
    c: int,
)
    requires
        edges_match(names, places, deps, edges),
        flags_match(order, placed),
        placed.len() == places.len(),
        is_open(edges, placed, c),
        forall|d: int|
            #[trigger] is_open(edges, placed, d) && d != c ==> if is_root(edges, c) != is_root(edges, d) {
                is_root(edges, c)
            } else {
                d < c
            },
    ensures
        is_next(names, deps, named(places, order), places[c]),
{
    lemma_open_is_ready(names, places, deps, edges, order, placed, c);
    let done = named(places, order);
    assert forall|u: Seq<char>| #[trigger] is_ready(names, deps, done, u) && u != places[c] implies goes_first(
        names,
        deps,
        places[c],
        u,
    ) by {
        assert(places.contains(u));
        let d = places.index_of(u);
        lemma_open_is_ready(names, places, deps, edges, order, placed, d);
        assert(is_open(edges, placed, d));
    }
}

/// The places of the tables in the order of their dependencies.
fn places_in_order(names: &NameSet, deps: &[FkDependency]) -> (r: Vec<usize>)
    ensures
        forall|i: int| 0 <= i < r@.len() ==> (#[trigger] r@[i]) < names.order().len(),
        is_dependency_order(names@, deps@, named(names.order(), r@)),
{
    let n: usize = names.len();
    let edges = edges_of(names, deps);
    let ghost places = names.order();
    let mut placed: Vec<bool> = Vec::new();
    for i in 0..n
        invariant
            placed@.len() == i,
            forall|c: int| 0 <= c < i ==> !#[trigger] placed@[c],
    {
        placed.push(false);
    }
    let mut order: Vec<usize> = Vec::new();
    loop
        invariant
            n == places.len(),
            placed@.len() == n,
            places == names.order(),
            edges_match(names@, places, deps@, edges@),
            flags_match(order@, placed@),
            order@.no_duplicates(),
            forall|p: int|
                0 <= p < order@.len() ==> is_next(
                    names@,
                    deps@,
                    named(places, order@).take(p),
                    #[trigger] named(places, order@)[p],
                ),
        ensures
            forall|d: int| !#[trigger] is_open(edges@, placed@, d),
        decreases n - order@.len(),
    {
        match next_place(edges.as_slice(), placed.as_slice()) {
            None => {
                break;
            },
            Some(c) => {
                let ghost order_before = order@;
                let ghost placed_before = placed@;
                proof { lemma_next(names@, places, deps@, edges@, order@, placed@, c as int); }
                order.push(c);
                placed.set(c, true);
                proof {
                    let before = named(places, order_before);
                    let after = named(places, order@);
                    assert(after =~= before.push(places[c as int]));
                    assert forall|d: int| 0 <= d < n implies (#[trigger] placed@[d] <==> order@.contains(
                        d as usize,
                    )) by {
                        if d == c {
                            assert(order@[order_before.len() as int] == c);
                        } else {
                            assert(placed_before[d] == placed@[d]);
                            if order_before.contains(d as usize) {
                                let j = order_before.index_of(d as usize);
                                assert(order@[j] == d);
                            }
                            if order@.contains(d as usize) {
                                let j = order@.index_of(d as usize);
                                assert(order_before[j] == d);
                            }
                        }
                    }
                    assert(!order_before.contains(c));
                    assert forall|p: int| 0 <= p < order@.len() implies is_next(
                        names@,
                        deps@,
                        after.take(p),
                        #[trigger] after[p],
                    ) by {
                        assert(after.take(p) =~= before.take(p));
                        if p < before.len() {
                            assert(after[p] == before[p]);
                        } else {
                            assert(before.take(p) =~= before);
                        }
                    }
                    lemma_few_places(order@, n as nat);
                }
            },
        }
    }
    let ghost sorted = order@.len() as int;
    let ghost first = order@;
    for c in 0..n
        invariant
            n == places.len(),
            placed@.len() == n,
            flags_match(first, placed@),
            first.no_duplicates(),
            sorted == first.len(),
            sorted <= order@.len(),
            order@.take(sorted) == first,
            forall|i: int| sorted <= i < order@.len() ==> (#[trigger] order@[i]) < c && !placed@[order@[i] as int],
            forall|i: int, j: int| sorted <= i < j < order@.len() ==> #[trigger] order@[i] < #[trigger] order@[j],
            forall|d: int| 0 <= d < c && !#[trigger] placed@[d] ==> order@.contains(d as usize),
    {
        let ghost before = order@;
        if !placed[c] {
            order.push(c);
        }
        proof {
            assert(order@.take(sorted) =~= before.take(sorted));
            assert forall|d: int| 0 <= d < c + 1 && !#[trigger] placed@[d] implies order@.contains(d as usize) by {
                if d < c {
                    let j = before.index_of(d as usize);
                    assert(order@[j] == d);
                } else {
                    assert(order@[before.len() as int] == d);
                }
            }
        }
    }
    proof {
        let all = named(places, order@);
        let done = named(places, first);
        assert forall|i: int| 0 <= i < sorted implies #[trigger] order@[i] == first[i] by {
            assert(order@.take(sorted)[i] == order@[i]);
        }
        assert(all.take(sorted) =~= done);
        assert forall|i: int| 0 <= i < order@.len() implies (#[trigger] order@[i]) < n by {
            if i < sorted {
                assert(first[i] < n);
            }
        }
        assert forall|i: int, j: int| 0 <= i < j < all.len() implies all[i] != all[j] by {
            if i < sorted && j >= sorted {
                assert(first.contains(first[i]));
                assert(placed@[order@[i] as int]);
            }
            assert(order@[i] != order@[j]);
            collections::lemma_ascending_index(places, order@[i] as int);
            collections::lemma_ascending_index(places, order@[j] as int);
        }
        assert forall|k: Seq<char>| #[trigger] names@.contains(k) <==> all.contains(k) by {
            if names@.contains(k) {
                let c = places.index_of(k);
                if placed@[c] {
                    let i = first.index_of(c as usize);
                    assert(all[i] == k);
                } else {
                    let i = order@.index_of(c as usize);
                    assert(all[i] == k);
                }
            }
            if all.contains(k) {
                let i = all.index_of(k);
                assert(places[order@[i] as int] == k);
            }
        }
        assert forall|p: int| 0 <= p < sorted implies is_next(names@, deps@, all.take(p), #[trigger] all[p]) by {
            assert(all.take(p) =~= done.take(p));
            assert(all[p] == done[p]);
        }
        assert forall|t: Seq<char>| !#[trigger] is_ready(names@, deps@, all.take(sorted), t) by {
            if names@.contains(t) {
                let c = places.index_of(t);
                lemma_open_is_ready(names@, places, deps@, edges@, first, placed@, c);
                assert(!is_open(edges@, placed@, c));
            }
        }
        assert forall|i: int, j: int| sorted <= i < j < all.len() implies text::text_before(
            #[trigger] all[i],
            #[trigger] all[j],
        ) by {
            assert(order@[i] < order@[j]);
        }
        assert(in_dependency_order(names@, deps@, all, sorted));
    }
    order
}

/// There is one next table at most.
proof fn lemma_next_unique(
    names: Set<Seq<char>>,
    deps: Seq<FkDependency>,
    placed: Seq<Seq<char>>,
    a: Seq<char>,
    b: Seq<char>,
)
    requires
        is_next(names, deps, placed, a),
        is_next(names, deps, placed, b),
    ensures
        a == b,
{
    if a != b {
        assert(goes_first(names, deps, a, b));
        assert(goes_first(names, deps, b, a));
        text::lemma_text_before_transitive(a, b, a);
        text::lemma_text_before_irreflexive(a);
    }
}

proof fn lemma_same_start(
    names: Set<Seq<char>>,
    deps: Seq<FkDependency>,
    a: Seq<Seq<char>>,
    b: Seq<Seq<char>>,
    sorted_a: int,
    sorted_b: int,
    p: int,
)
    requires
        in_dependency_order(names, deps, a, sorted_a),
        in_dependency_order(names, deps, b, sorted_b),
        0 <= p <= sorted_a,
        p <= sorted_b,
    ensures
        a.take(p) == b.take(p),
    decreases p,
{
    if p > 0 {
        lemma_same_start(names, deps, a, b, sorted_a, sorted_b, p - 1);
        lemma_next_unique(names, deps, a.take(p - 1), a[p - 1], b[p - 1]);
        assert(a.take(p) =~= a.take(p - 1).push(a[p - 1]));
        assert(b.take(p) =~= b.take(p - 1).push(b[p - 1]));
    } else {
        assert(a.take(0) =~= b.take(0));
    }
}

/// The order of the dependencies is fixed by the tables and the dependencies.
pub proof fn dependency_order_is_unique(
    names: Set<Seq<char>>,
    deps: Seq<FkDependency>,
    a: Seq<Seq<char>>,
    b: Seq<Seq<char>>,
)
    requires
        is_dependency_order(names, deps, a),
        is_dependency_order(names, deps, b),
    ensures
        a == b,
{
    let sa = choose|sorted: int| in_dependency_order(names, deps, a, sorted);
    let sb = choose|sorted: int| in_dependency_order(names, deps, b, sorted);
    let s = if sa < sb { sa } else { sb };
    lemma_same_start(names, deps, a, b, sa, sb, s);
    if sa < sb {
        assert(is_ready(names, deps, a.take(sa), b[sa]));
    }
    if sb < sa {
        assert(is_ready(names, deps, b.take(sb), a[sb]));
    }
    let x = a.skip(s);
    let y = b.skip(s);
    assert forall|k: Seq<char>| #[trigger] x.contains(k) <==> y.contains(k) by {
        lemma_tail_members(a, s, k);
        lemma_tail_members(b, s, k);
        assert(names.contains(k) <==> a.contains(k));
        assert(names.contains(k) <==> b.contains(k));
    }
    collections::lemma_ascending_unique(x, y);
    assert(a =~= a.take(s) + x);
    assert(b =~= b.take(s) + y);
}

/// The members of a tail are those that are not in the head.
proof fn lemma_tail_members(a: Seq<Seq<char>>, s: int, k: Seq<char>)
    requires
        a.no_duplicates(),
        0 <= s <= a.len(),
    ensures
        a.skip(s).contains(k) <==> a.contains(k) && !a.take(s).contains(k),
{
    let head = a.take(s);
    let tail = a.skip(s);
    if tail.contains(k) {
        let j = tail.index_of(k);
        assert(a[j + s] == k);
        if head.contains(k) {
            let i = head.index_of(k);
            assert(a[i] == k);
        }
    }
    if a.contains(k) && !head.contains(k) {
        let i = a.index_of(k);
        if i < s {
            assert(head[i] == k);
        }
        assert(tail[i - s] == k);
    }
}

/// The first of the tables whose lowercase name is given.
fn find_spelling<'a>(tables: &'a [String], name: &str) -> (r: Option<&'a String>)
    ensures
        match r {
            Some(t) => spelling(tables@, name@) == Some(t@),
            None => spelling(tables@, name@) is None,
        },
{
    assert(tables@.skip(0) == tables@);
    for i in 0..tables.len()
        invariant
            spelling(tables@, name@) == spelling(tables@.skip(i as int), name@),
    {
        let lower = outside::lowercase(tables[i].as_str());
        if text::same_text(lower.as_str(), name) {
            return Some(&tables[i]);
        }
        assert(tables@.skip(i as int).drop_first() == tables@.skip(i + 1));
    }
    None
}

/// Topological sort: tables come after those that they depend on. If `reverse` is true, they
/// come before them (delete order, children first).
pub fn topological_sort(tables: &[String], deps: &[FkDependency], reverse: bool) -> (r: Vec<String>)
    ensures
        text::texts(r@) == if reverse {
            insert_order(tables@, deps@).reverse()
        } else {
            insert_order(tables@, deps@)
        },
{
    let names = collections::lowercase_set(tables);
    let order = places_in_order(&names, deps);
    let ghost sorted_names = named(names.order(), order@);
    proof {
        dependency_order_is_unique(
            names@,
            deps@,
            sorted_names,
            dependency_order(collections::lowercase_names(tables@), deps@),
        );
    }
    let mut ordered: Vec<String> = Vec::new();
    assert(sorted_names.take(0) =~= Seq::<Seq<char>>::empty());
    assert(text::texts(ordered@) =~= respelled(tables@, sorted_names.take(0)));
    for i in 0..order.len()
        invariant
            sorted_names == named(names.order(), order@),
            forall|j: int| 0 <= j < order@.len() ==> (#[trigger] order@[j]) < names.order().len(),
            text::texts(ordered@) == respelled(tables@, sorted_names.take(i as int)),
    {
        let ghost before = ordered@;
        let name = names.name_at(order[i]);
        assert(sorted_names[i as int] == name@);
        assert(sorted_names.take(i + 1).drop_last() =~= sorted_names.take(i as int));
        if let Some(spelled) = find_spelling(tables, name) {
            ordered.push(spelled.clone());
            assert(text::texts(ordered@) =~= text::texts(before).push(spelled@));
        }
    }
    assert(sorted_names.take(order@.len() as int) =~= sorted_names);
    if reverse {
        let mut reversed: Vec<String> = Vec::new();
        let n: usize = ordered.len();
        for i in 0..n
            invariant
                n == ordered@.len(),
                text::texts(reversed@) == text::texts(ordered@).reverse().take(i as int),
        {
            let ghost before = reversed@;
            reversed.push(ordered[n - 1 - i].clone());
            proof {
                let all = text::texts(ordered@).reverse();
                assert(text::texts(reversed@) =~= text::texts(before).push(all[i as int]));
                assert(text::texts(reversed@) =~= all.take(i + 1));
            }
        }
        assert(text::texts(ordered@).reverse().take(n as int) =~= text::texts(ordered@).reverse());
        reversed
    } else {
        ordered
    }
}

/// Sort tables for INSERT order: parents before children (topological sort).
/// Tables without FK dependencies come first.
pub fn sort_for_insert(tables: &[String], deps: &[FkDependency]) -> (r: Vec<String>)
    ensures
        text::texts(r@) == insert_order(tables@, deps@),
{
    topological_sort(tables, deps, false)
}

/// Sort tables for DELETE order: children before parents (reverse topological sort).
pub fn sort_for_delete(tables: &[String], deps: &[FkDependency]) -> (r: Vec<String>)
    ensures
        text::texts(r@) == insert_order(tables@, deps@).reverse(),
{
    topological_sort(tables, deps, true)
}

/// Tables that depend on none come first.
proof fn lemma_free_first(
    names: Set<Seq<char>>,
    deps: Seq<FkDependency>,
    order: Seq<Seq<char>>,
    i: int,
    j: int,
)
    requires
        is_dependency_order(names, deps, order),
        0 <= i < j < order.len(),
        is_free(names, deps, order[j]),
    ensures
        is_free(names, deps, order[i]),
{
    let sorted = choose|sorted: int| in_dependency_order(names, deps, order, sorted);
    let p = if i < sorted { i } else { sorted };
    let u = order[j];
    assert(order.contains(u));
    assert(names.contains(u));
    if order.take(p).contains(u) {
        let k = order.take(p).index_of(u);
        assert(order[k] == order[j]);
    }
    assert(is_ready(names, deps, order.take(p), u));
    if i < sorted {
        assert(is_next(names, deps, order.take(i), order[i]));
    }
}

/// Whether tables depend, among all that are sorted, on each other alone, and never in a circle:
/// `level` is lower for what a table depends on.
pub open spec fn without_circles(
    names: Set<Seq<char>>,
    deps: Seq<FkDependency>,
    some: Set<Seq<char>>,
    level: spec_fn(Seq<char>) -> int,
) -> bool {
    &&& forall|t: Seq<char>| #[trigger] some.contains(t) ==> names.contains(t)
    &&& forall|t: Seq<char>, p: Seq<char>|
        some.contains(t) && names.contains(p) && #[trigger] depends_on(deps, t, p) ==> some.contains(p) && level(p)
            < level(t)
}

/// Whether each of some tables depends on one of them.
pub open spec fn held_by_circles(
    names: Set<Seq<char>>,
    deps: Seq<FkDependency>,
    some: Set<Seq<char>>,
) -> bool {
    &&& forall|t: Seq<char>| #[trigger] some.contains(t) ==> names.contains(t)
    &&& forall|t: Seq<char>| some.contains(t) ==> #[trigger] depends_on_one_of(deps, t, some)
}

/// Whether a table depends on one of some tables.
pub open spec fn depends_on_one_of(deps: Seq<FkDependency>, table: Seq<char>, some: Set<Seq<char>>) -> bool {
    exists|p: Seq<char>| some.contains(p) && #[trigger] depends_on(deps, table, p)
}

/// Tables that no circle holds up are all sorted.
proof fn lemma_no_circle_is_sorted(
    names: Set<Seq<char>>,
    deps: Seq<FkDependency>,
    order: Seq<Seq<char>>,
    sorted: int,
    some: Set<Seq<char>>,
    level: spec_fn(Seq<char>) -> int,
    j: int,
)
    requires
        in_dependency_order(names, deps, order, sorted),
        without_circles(names, deps, some, level),
        0 <= j < order.len(),
        some.contains(order[j]),
    ensures
        j < sorted,
{
    if j >= sorted {
        let m = lemma_lowest(order, some, level, sorted, j);
        let t = order[m];
        let head = order.take(sorted);
        lemma_tail_members(order, sorted, t);
        assert(order.skip(sorted)[m - sorted] == t);
        assert forall|p: Seq<char>| names.contains(p) && #[trigger] depends_on(deps, t, p) implies head.contains(p) by {
            let q = order.index_of(p);
            assert(order.contains(p));
            assert(order[q] == p);
            if q >= sorted {
                assert(level(order[m]) <= level(order[q]));
            }
            assert(head[q] == p);
        }
        assert(is_ready(names, deps, head, t));
    }
}

/// Tables that depend on each other in circles are not sorted.
proof fn lemma_circle_is_left_over(
    names: Set<Seq<char>>,
    deps: Seq<FkDependency>,
    order: Seq<Seq<char>>,
    sorted: int,
    some: Set<Seq<char>>,
    j: int,
)
    requires
        in_dependency_order(names, deps, order, sorted),
        held_by_circles(names, deps, some),
        0 <= j < order.len(),
        some.contains(order[j]),
    ensures
        sorted <= j,
    decreases j,
{
    if j < sorted {
        assert(is_next(names, deps, order.take(j), order[j]));
        assert(depends_on_one_of(deps, order[j], some));
        let p = choose|p: Seq<char>| some.contains(p) && #[trigger] depends_on(deps, order[j], p);
        assert(names.contains(p));
        assert(order.take(j).contains(p));
        let k = order.take(j).index_of(p);
        assert(order[k] == p);
        lemma_circle_is_left_over(names, deps, order, sorted, some, k);
    }
}

/// A table that no circle holds up comes after all tables that it depends on.
proof fn lemma_parents_first(
    names: Set<Seq<char>>,
    deps: Seq<FkDependency>,
    order: Seq<Seq<char>>,
    some: Set<Seq<char>>,
    level: spec_fn(Seq<char>) -> int,
    i: int,
    j: int,
)
    requires
        is_dependency_order(names, deps, order),
        without_circles(names, deps, some, level),
        0 <= i < order.len(),
        0 <= j < order.len(),
        some.contains(order[j]),
        depends_on(deps, order[j], order[i]),
    ensures
        i < j,
{
    let sorted = choose|sorted: int| in_dependency_order(names, deps, order, sorted);
    assert(order.contains(order[i]));
    assert(names.contains(order[i]));
    lemma_no_circle_is_sorted(names, deps, order, sorted, some, level, j);
    assert(is_next(names, deps, order.take(j), order[j]));
    assert(order.take(j).contains(order[i]));
    let k = order.take(j).index_of(order[i]);
    assert(order[k] == order[i]);
}

/// Of the places from `from` on that hold some of the tables, one at which the level is lowest.
proof fn lemma_lowest(
    order: Seq<Seq<char>>,
    some: Set<Seq<char>>,
    level: spec_fn(Seq<char>) -> int,
    from: int,
    j: int,
) -> (m: int)
    requires
        0 <= from <= j < order.len(),
        some.contains(order[j]),
    ensures
        from <= m < order.len(),
        some.contains(order[m]),
        forall|i: int|
            from <= i < order.len() && some.contains(#[trigger] order[i]) ==> level(order[m]) <= level(order[i]),
    decreases order.len() - from,
{
    if from == order.len() - 1 {
        from
    } else if exists|i: int| from < i < order.len() && some.contains(#[trigger] order[i]) {
        let i = choose|i: int| from < i < order.len() && some.contains(#[trigger] order[i]);
        let rest = lemma_lowest(order, some, level, from + 1, i);
        if some.contains(order[from]) && level(order[from]) <= level(order[rest]) {
            from
        } else {
            rest
        }
    } else {
        from
    }
}

/// Of finitely many texts there is one that goes before all others, in an order in which any
/// two have a first.
proof fn lemma_first_of(
    set: Set<Seq<char>>,
    before: spec_fn(Seq<char>, Seq<char>) -> bool,
) -> (m: Seq<char>)
    requires
        set.finite(),
        set.len() > 0,
        forall|a: Seq<char>, b: Seq<char>, c: Seq<char>|
            #[trigger] before(a, b) && #[trigger] before(b, c) ==> before(a, c),
        forall|a: Seq<char>, b: Seq<char>| a == b || #[trigger] before(a, b) || before(b, a),
    ensures
        set.contains(m),
        forall|u: Seq<char>| #[trigger] set.contains(u) && u != m ==> before(m, u),
    decreases set.len(),
{
    let x = set.choose();
    let less = set.remove(x);
    if less.len() == 0 {
        assert forall|u: Seq<char>| #[trigger] set.contains(u) && u != x implies before(x, u) by {
            assert(less.contains(u));
        }
        x
    } else {
        let y = lemma_first_of(less, before);
        if before(x, y) {
            assert forall|u: Seq<char>| #[trigger] set.contains(u) && u != x implies before(x, u) by {
                assert(less.contains(u));
                if u != y {
                    assert(before(y, u));
                }
            }
            x
        } else {
            assert forall|u: Seq<char>| #[trigger] set.contains(u) && u != y implies before(y, u) by {
                if u != x {
                    assert(less.contains(u));
                } else {
                    assert(before(x, y) || before(y, x));
                }
            }
            y
        }
    }
}

/// Finitely many texts can be put in ascending order.
proof fn lemma_ascending_order(set: Set<Seq<char>>) -> (r: Seq<Seq<char>>)
    requires
        set.finite(),
    ensures
        collections::ascending(r),
        forall|k: Seq<char>| #[trigger] r.contains(k) <==> set.contains(k),
    decreases set.len(),
{
    if set.len() == 0 {
        Seq::empty()
    } else {
        let after = |a: Seq<char>, b: Seq<char>| text::text_before(b, a);
        assert forall|a: Seq<char>, b: Seq<char>, c: Seq<char>|
            #[trigger] after(a, b) && #[trigger] after(b, c) implies after(a, c) by {
            text::lemma_text_before_transitive(c, b, a);
        }
        assert forall|a: Seq<char>, b: Seq<char>| a == b || #[trigger] after(a, b) || after(b, a) by {
            text::lemma_text_before_total(a, b);
        }
        let m = lemma_first_of(set, after);
        let less = set.remove(m);
        let before = lemma_ascending_order(less);
        let r = before.push(m);
        assert forall|i: int, j: int| 0 <= i < j < r.len() implies text::text_before(
            #[trigger] r[i],
            #[trigger] r[j],
        ) by {
            if j == before.len() {
                assert(before.contains(before[i]));
                assert(less.contains(r[i]));
                assert(set.contains(r[i]));
                assert(after(m, r[i]));
            }
        }
        assert forall|k: Seq<char>| #[trigger] r.contains(k) <==> set.contains(k) by {
            if k == m {
                assert(r[before.len() as int] == k);
            } else {
                assert(before.contains(k) <==> less.contains(k));
                if before.contains(k) {
                    assert(r[before.index_of(k)] == k);
                }
                if r.contains(k) {
                    assert(before[r.index_of(k)] == k);
                }
            }
        }
        r
    }
}

/// Tables placed so far, each the next one after those before it, can be completed.
proof fn lemma_order_from(
    names: Set<Seq<char>>,
    deps: Seq<FkDependency>,
    start: Seq<Seq<char>>,
) -> (r: Seq<Seq<char>>)
    requires
        names.finite(),
        start.no_duplicates(),
        forall|i: int| 0 <= i < start.len() ==> names.contains(#[trigger] start[i]),
        forall|p: int| 0 <= p < start.len() ==> is_next(names, deps, start.take(p), #[trigger] start[p]),
    ensures
        is_dependency_order(names, deps, r),
    decreases names.len() - start.len(),
{
    start.unique_seq_to_set();
    assert(start.to_set().subset_of(names)) by {
        assert forall|k: Seq<char>| start.to_set().contains(k) implies names.contains(k) by {
            assert(start[start.index_of(k)] == k);
        }
    }
    vstd::set_lib::lemma_len_subset(start.to_set(), names);
    let ready = names.filter(|t: Seq<char>| is_ready(names, deps, start, t));
    names.lemma_len_filter(|t: Seq<char>| is_ready(names, deps, start, t));
    if ready.len() > 0 {
        let first = |a: Seq<char>, b: Seq<char>| goes_first(names, deps, a, b);
        assert forall|a: Seq<char>, b: Seq<char>, c: Seq<char>|
            #[trigger] first(a, b) && #[trigger] first(b, c) implies first(a, c) by {
            if is_free(names, deps, a) == is_free(names, deps, b) && is_free(names, deps, b) == is_free(
                names,
                deps,
                c,
            ) {
                text::lemma_text_before_transitive(c, b, a);
            }
        }
        assert forall|a: Seq<char>, b: Seq<char>| a == b || #[trigger] first(a, b) || first(b, a) by {
            text::lemma_text_before_total(a, b);
        }
        let t = lemma_first_of(ready, first);
        assert(is_next(names, deps, start, t)) by {
            assert forall|u: Seq<char>| #[trigger] is_ready(names, deps, start, u) && u != t implies goes_first(
                names,
                deps,
                t,
                u,
            ) by {
                assert(ready.contains(u));
                assert(first(t, u));
            }
        }
        let more = start.push(t);
        assert forall|p: int| 0 <= p < more.len() implies is_next(names, deps, more.take(p), #[trigger] more[p]) by {
            assert(more.take(p) =~= start.take(p));
            if p == start.len() {
                assert(start.take(p) =~= start);
            } else {
                assert(more[p] == start[p]);
            }
        }
        lemma_room(names, more);
        lemma_order_from(names, deps, more)
    } else {
        let left = names.filter(|t: Seq<char>| !start.contains(t));
        names.lemma_len_filter(|t: Seq<char>| !start.contains(t));
        let rest = lemma_ascending_order(left);
        let r = start + rest;
        let sorted = start.len() as int;
        assert(r.take(sorted) =~= start);
        assert forall|i: int, j: int| 0 <= i < j < r.len() implies r[i] != r[j] by {
            if i < sorted && j >= sorted {
                assert(rest[j - sorted] == r[j]);
                assert(rest.contains(r[j]));
                assert(left.contains(r[j]));
                assert(start.contains(start[i]));
            } else if i >= sorted {
                assert(rest[i - sorted] == r[i] && rest[j - sorted] == r[j]);
                text::lemma_text_before_irreflexive(r[i]);
            }
        }
        assert forall|k: Seq<char>| #[trigger] names.contains(k) <==> r.contains(k) by {
            assert(rest.contains(k) <==> left.contains(k));
            if start.contains(k) {
                assert(r[start.index_of(k)] == k);
                assert(names.contains(start[start.index_of(k)]));
            } else if rest.contains(k) {
                assert(r[sorted + rest.index_of(k)] == k);
            }
            if r.contains(k) && !start.contains(k) {
                let i = r.index_of(k);
                if i < sorted {
                    assert(start[i] == k);
                }
                assert(rest[i - sorted] == k);
            }
        }
        assert forall|p: int| 0 <= p < sorted implies is_next(names, deps, r.take(p), #[trigger] r[p]) by {
            assert(r.take(p) =~= start.take(p));
            assert(r[p] == start[p]);
        }
        assert forall|t: Seq<char>| !#[trigger] is_ready(names, deps, r.take(sorted), t) by {
            if is_ready(names, deps, start, t) {
                assert(ready.contains(t));
            }
        }
        assert(in_dependency_order(names, deps, r, sorted));
        r
    }
}

/// Different names out of a set are no more than the set has.
proof fn lemma_room(names: Set<Seq<char>>, order: Seq<Seq<char>>)
    requires
        names.finite(),
        order.no_duplicates(),
        forall|i: int| 0 <= i < order.len() ==> names.contains(#[trigger] order[i]),
    ensures
        order.len() <= names.len(),
{
    order.unique_seq_to_set();
    assert forall|k: Seq<char>| order.to_set().contains(k) implies names.contains(k) by {
        assert(order[order.index_of(k)] == k);
    }
    vstd::set_lib::lemma_len_subset(order.to_set(), names);
}

/// Any tables can be put in the order of their dependencies.
pub proof fn dependency_order_exists(tables: Seq<String>, deps: Seq<FkDependency>)
    ensures
        is_dependency_order(
            collections::lowercase_names(tables),
            deps,
            dependency_order(collections::lowercase_names(tables), deps),
        ),
{
    let names = collections::lowercase_names(tables);
    let all = tables.map_values(|t: String| outside::lowercase_text(t@));
    assert(names =~= all.to_set()) by {
        assert forall|k: Seq<char>| names.contains(k) <==> all.to_set().contains(k) by {
            if names.contains(k) {
                let i = choose|i: int|
                    0 <= i < tables.len() && outside::lowercase_text((#[trigger] tables[i])@) == k;
                assert(all[i] == k);
            }
            if all.contains(k) {
                let i = all.index_of(k);
                assert(outside::lowercase_text(tables[i]@) == k);
            }
        }
    }
    vstd::seq_lib::seq_to_set_is_finite(all);
    let order = lemma_order_from(names, deps, Seq::empty());
}

proof fn lemma_spelling(tables: Seq<String>, name: Seq<char>)
    requires
        collections::lowercase_names(tables).contains(name),
    ensures
        spelling(tables, name) matches Some(t) && outside::lowercase_text(t) == name && text::texts(
            tables,
        ).contains(t),
    decreases tables.len(),
{
    let i = choose|i: int| 0 <= i < tables.len() && outside::lowercase_text((#[trigger] tables[i])@) == name;
    if outside::lowercase_text(tables[0]@) == name {
        assert(text::texts(tables)[0] == tables[0]@);
    } else {
        let rest = tables.drop_first();
        assert(rest[i - 1] == tables[i]);
        lemma_spelling(rest, name);
        let t = spelling(rest, name)->0;
        let j = text::texts(rest).index_of(t);
        assert(text::texts(tables)[j + 1] == t);
    }
}

proof fn lemma_respelled(tables: Seq<String>, names: Seq<Seq<char>>)
    requires
        forall|k: int| 0 <= k < names.len() ==> collections::lowercase_names(tables).contains(#[trigger] names[k]),
    ensures
        respelled(tables, names).len() == names.len(),
        forall|k: int|
            0 <= k < names.len() ==> text::texts(tables).contains(#[trigger] respelled(tables, names)[k])
                && outside::lowercase_text(respelled(tables, names)[k]) == names[k],
    decreases names.len(),
{
    if names.len() > 0 {
        let before = names.drop_last();
        assert forall|k: int| 0 <= k < before.len() implies collections::lowercase_names(tables).contains(
            #[trigger] before[k],
        ) by {
            assert(before[k] == names[k]);
        }
        lemma_respelled(tables, before);
        let name = names.last();
        assert(name == names[names.len() - 1]);
        lemma_spelling(tables, name);
        let t = spelling(tables, name)->0;
        let all = respelled(tables, names);
        assert(all =~= respelled(tables, before).push(t));
        assert forall|k: int| 0 <= k < names.len() implies text::texts(tables).contains(#[trigger] all[k])
            && outside::lowercase_text(all[k]) == names[k] by {
            if k < before.len() {
                assert(all[k] == respelled(tables, before)[k]);
                assert(names[k] == before[k]);
            }
        }
    }
}

proof fn lemma_insert_order(tables: Seq<String>, deps: Seq<FkDependency>)
    ensures
        ({
            let names = collections::lowercase_names(tables);
            let sorted = dependency_order(names, deps);
            let order = insert_order(tables, deps);
            &&& is_dependency_order(names, deps, sorted)
            &&& order.len() == sorted.len()
            &&& forall|k: int|
                0 <= k < order.len() ==> text::texts(tables).contains(#[trigger] order[k])
                    && outside::lowercase_text(order[k]) == sorted[k]
        }),
{
    let names = collections::lowercase_names(tables);
    dependency_order_exists(tables, deps);
    let sorted = dependency_order(names, deps);
    assert forall|k: int| 0 <= k < sorted.len() implies names.contains(#[trigger] sorted[k]) by {
        assert(sorted.contains(sorted[k]));
    }
    lemma_respelled(tables, sorted);
}

/// Sorting loses no table and adds none: each name comes once, as one of the tables spells it.
pub proof fn every_table_is_sorted(tables: Seq<String>, deps: Seq<FkDependency>)
    ensures
        forall|k: int|
            0 <= k < insert_order(tables, deps).len() ==> text::texts(tables).contains(
                #[trigger] insert_order(tables, deps)[k],
            ),
        forall|i: int|
            0 <= i < tables.len() ==> exists|k: int|
                0 <= k < insert_order(tables, deps).len() && outside::lowercase_text(
                    #[trigger] insert_order(tables, deps)[k],
                ) == outside::lowercase_text((#[trigger] tables[i])@),
        forall|k: int, l: int|
            0 <= k < l < insert_order(tables, deps).len() ==> outside::lowercase_text(
                #[trigger] insert_order(tables, deps)[k],
            ) != outside::lowercase_text(#[trigger] insert_order(tables, deps)[l]),
{
    lemma_insert_order(tables, deps);
    let names = collections::lowercase_names(tables);
    let sorted = dependency_order(names, deps);
    let order = insert_order(tables, deps);
    let m = choose|m: int| in_dependency_order(names, deps, sorted, m);
    assert forall|i: int| 0 <= i < tables.len() implies exists|k: int|
        0 <= k < order.len() && outside::lowercase_text(#[trigger] order[k]) == outside::lowercase_text(
            (#[trigger] tables[i])@,
        ) by {
        let name = outside::lowercase_text(tables[i]@);
        assert(names.contains(name));
        let k = sorted.index_of(name);
        assert(outside::lowercase_text(order[k]) == name);
    }
}

/// Tables without dependencies are inserted first.
pub proof fn free_tables_are_inserted_first(
    tables: Seq<String>,
    deps: Seq<FkDependency>,
    i: int,
    j: int,
)
    requires
        0 <= i < j < insert_order(tables, deps).len(),
        is_free(
            collections::lowercase_names(tables),
            deps,
            outside::lowercase_text(insert_order(tables, deps)[j]),
        ),
    ensures
        is_free(
            collections::lowercase_names(tables),
            deps,
            outside::lowercase_text(insert_order(tables, deps)[i]),
        ),
{
    lemma_insert_order(tables, deps);
    let names = collections::lowercase_names(tables);
    lemma_free_first(names, deps, dependency_order(names, deps), i, j);
}

/// Where no dependencies go round in a circle, a table is inserted after every table that it
/// depends on, and deleted before it. `level` shows that there is no circle: it is lower for
/// what a table depends on.
pub proof fn parents_are_inserted_first(
    tables: Seq<String>,
    deps: Seq<FkDependency>,
    level: spec_fn(Seq<char>) -> int,
    i: int,
    j: int,
)
    requires
        forall|t: Seq<char>, p: Seq<char>|
            collections::lowercase_names(tables).contains(t) && collections::lowercase_names(tables).contains(p)
                && #[trigger] depends_on(deps, t, p) ==> level(p) < level(t),
        0 <= i < insert_order(tables, deps).len(),
        0 <= j < insert_order(tables, deps).len(),
        depends_on(
            deps,
            outside::lowercase_text(insert_order(tables, deps)[j]),
            outside::lowercase_text(insert_order(tables, deps)[i]),
        ),
    ensures
        i < j,
        insert_order(tables, deps).reverse()[insert_order(tables, deps).len() - 1 - i] == insert_order(tables, deps)[i],
        insert_order(tables, deps).reverse()[insert_order(tables, deps).len() - 1 - j] == insert_order(tables, deps)[j],
        insert_order(tables, deps).len() - 1 - j < insert_order(tables, deps).len() - 1 - i,
{
    lemma_insert_order(tables, deps);
    let names = collections::lowercase_names(tables);
    let sorted = dependency_order(names, deps);
    assert forall|t: Seq<char>, p: Seq<char>|
        names.contains(t) && names.contains(p) && #[trigger] depends_on(deps, t, p) implies level(p) < level(t) by {}
    assert(sorted.contains(sorted[j]));
    lemma_parents_first(names, deps, sorted, names, level, i, j);
}

/// Circles of dependencies hold up the tables on them and those that depend on them, and no
/// others: tables that depend on each other alone, and never in a circle, are inserted after
/// every table that they depend on, and before any table that circles hold up.
pub proof fn circles_hold_up_no_other_table(
    tables: Seq<String>,
    deps: Seq<FkDependency>,
    some: Set<Seq<char>>,
    level: spec_fn(Seq<char>) -> int,
    held: Set<Seq<char>>,
    i: int,
    j: int,
)
    requires
        without_circles(collections::lowercase_names(tables), deps, some, level),
        held_by_circles(collections::lowercase_names(tables), deps, held),
        0 <= i < insert_order(tables, deps).len(),
        0 <= j < insert_order(tables, deps).len(),
        some.contains(outside::lowercase_text(insert_order(tables, deps)[j])),
    ensures
        depends_on(
            deps,
            outside::lowercase_text(insert_order(tables, deps)[j]),
            outside::lowercase_text(insert_order(tables, deps)[i]),
        ) ==> i < j,
        held.contains(outside::lowercase_text(insert_order(tables, deps)[i])) ==> j < i,
{
    lemma_insert_order(tables, deps);
    let names = collections::lowercase_names(tables);
    let sorted = dependency_order(names, deps);
    if depends_on(deps, sorted[j], sorted[i]) {
        lemma_parents_first(names, deps, sorted, some, level, i, j);
    }
    if held.contains(sorted[i]) {
        let m = choose|m: int| in_dependency_order(names, deps, sorted, m);
        lemma_no_circle_is_sorted(names, deps, sorted, m, some, level, j);
        lemma_circle_is_left_over(names, deps, sorted, m, held, i);
    }
}

/// Whether a name is that of a table with a foreign key to one of the tables, whatever the case.
pub open spec fn refers_to_one_of(tables: Seq<String>, deps: Seq<FkDependency>, name: Seq<char>) -> bool {
    exists|d: int, k: int|
        0 <= d < deps.len() && 0 <= k < tables.len() && outside::lowercase_text((#[trigger] deps[d]).table@)
            == outside::lowercase_text(name) && outside::lowercase_text(deps[d].references_table@)
            == outside::lowercase_text((#[trigger] tables[k])@)
}

proof fn lemma_refers(tables: Seq<String>, deps: Seq<FkDependency>, name: Seq<char>)
    ensures
        is_free(collections::lowercase_names(tables), deps, outside::lowercase_text(name)) <==> !refers_to_one_of(
            tables,
            deps,
            name,
        ),
{
    let names = collections::lowercase_names(tables);
    lemma_lowercase_names(tables);
    if !is_free(names, deps, outside::lowercase_text(name)) {
        let p = choose|p: Seq<char>|
            names.contains(p) && #[trigger] depends_on(deps, outside::lowercase_text(name), p);
        let t = choose|t: Seq<char>| #[trigger] text::texts(tables).contains(t) && outside::lowercase_text(t) == p;
        let k = choose|k: int| 0 <= k < tables.len() && text::texts(tables)[k] == t;
        assert(tables[k]@ == t);
        let d = choose|d: int|
            0 <= d < deps.len() && outside::lowercase_text((#[trigger] deps[d]).table@) == outside::lowercase_text(
                name,
            ) && outside::lowercase_text(deps[d].references_table@) == p;
        assert(refers_to_one_of(tables, deps, name));
    }
    if refers_to_one_of(tables, deps, name) {
        let (d, k) = choose|d: int, k: int|
            0 <= d < deps.len() && 0 <= k < tables.len() && outside::lowercase_text((#[trigger] deps[d]).table@)
                == outside::lowercase_text(name) && outside::lowercase_text(deps[d].references_table@)
                == outside::lowercase_text((#[trigger] tables[k])@);
        assert(text::texts(tables)[k] == tables[k]@);
        assert(text::texts(tables).contains(tables[k]@));
        assert(names.contains(outside::lowercase_text(tables[k]@)));
        assert(depends_on(deps, outside::lowercase_text(name), outside::lowercase_text(tables[k]@)));
    }
}

/// Tables without a foreign key to one of the tables are inserted before all others, and among
/// themselves from the last name to the first.
pub proof fn tables_without_foreign_keys_come_first(
    tables: Seq<String>,
    deps: Seq<FkDependency>,
    i: int,
    j: int,
)
    requires
        0 <= i < j < insert_order(tables, deps).len(),
        !refers_to_one_of(tables, deps, insert_order(tables, deps)[j]),
    ensures
        !refers_to_one_of(tables, deps, insert_order(tables, deps)[i]),
        text::text_before(
            outside::lowercase_text(insert_order(tables, deps)[j]),
            outside::lowercase_text(insert_order(tables, deps)[i]),
        ),
{
    lemma_insert_order(tables, deps);
    let names = collections::lowercase_names(tables);
    let sorted = dependency_order(names, deps);
    lemma_refers(tables, deps, insert_order(tables, deps)[i]);
    lemma_refers(tables, deps, insert_order(tables, deps)[j]);
    lemma_free_first(names, deps, sorted, i, j);
    let m = choose|m: int| in_dependency_order(names, deps, sorted, m);
    let a = sorted[i];
    let b = sorted[j];
    assert(sorted.contains(a) && sorted.contains(b));
    if i >= m {
        assert(is_ready(names, deps, sorted.take(m), a)) by {
            if sorted.take(m).contains(a) {
                let k = choose|k: int| 0 <= k < m && sorted.take(m)[k] == a;
                assert(sorted[k] == sorted[i]);
            }
        }
    } else {
        assert(is_next(names, deps, sorted.take(i), sorted[i]));
        assert(is_ready(names, deps, sorted.take(i), b)) by {
            if sorted.take(i).contains(b) {
                let k = choose|k: int| 0 <= k < i && sorted.take(i)[k] == b;
                assert(sorted[k] == sorted[j]);
            }
        }
        assert(a != b);
        assert(goes_first(names, deps, a, b));
    }
}

/// Of the two tables of a foreign key, the one that it refers to is inserted first and deleted
/// last, whatever the case of the names, where no foreign keys go round in a circle. `level`
/// shows that they do not: it is lower for the table that is referred to.
pub proof fn a_foreign_key_puts_its_table_later(
    tables: Seq<String>,
    deps: Seq<FkDependency>,
    level: spec_fn(Seq<char>) -> int,
    d: int,
    i: int,
    j: int,
)
    requires
        forall|e: int|
            0 <= e < deps.len() ==> level(outside::lowercase_text((#[trigger] deps[e]).references_table@)) < level(
                outside::lowercase_text(deps[e].table@),
            ),
        0 <= d < deps.len(),
        0 <= i < insert_order(tables, deps).len(),
        0 <= j < insert_order(tables, deps).len(),
        outside::lowercase_text(insert_order(tables, deps)[i]) == outside::lowercase_text(
            deps[d].references_table@,
        ),
        outside::lowercase_text(insert_order(tables, deps)[j]) == outside::lowercase_text(deps[d].table@),
    ensures
        i < j,
{
    parents_are_inserted_first(tables, deps, level, i, j);
}

/// A table comes as the first of the tables with its name spells it, whatever the case.
pub proof fn tables_come_as_first_spelled(tables: Seq<String>, deps: Seq<FkDependency>, k: int, i: int)
    requires
        0 <= k < insert_order(tables, deps).len(),
        0 <= i < tables.len(),
        outside::lowercase_text(insert_order(tables, deps)[k]) == outside::lowercase_text(tables[i]@),
        forall|h: int|
            0 <= h < i ==> outside::lowercase_text((#[trigger] tables[h])@) != outside::lowercase_text(tables[i]@),
    ensures
        insert_order(tables, deps)[k] == tables[i]@,
{
    lemma_insert_order(tables, deps);
    let sorted = dependency_order(collections::lowercase_names(tables), deps);
    assert forall|h: int| 0 <= h < sorted.len() implies collections::lowercase_names(tables).contains(
        #[trigger] sorted[h],
    ) by {
        assert(sorted.contains(sorted[h]));
    }
    lemma_respelled_at(tables, sorted, k);
    lemma_first_spelling(tables, sorted[k], i);
}

proof fn lemma_respelled_at(tables: Seq<String>, names: Seq<Seq<char>>, k: int)
    requires
        forall|h: int| 0 <= h < names.len() ==> collections::lowercase_names(tables).contains(#[trigger] names[h]),
        0 <= k < names.len(),
    ensures
        Some(respelled(tables, names)[k]) == spelling(tables, names[k]),
    decreases names.len(),
{
    let before = names.drop_last();
    assert forall|h: int| 0 <= h < before.len() implies collections::lowercase_names(tables).contains(
        #[trigger] before[h],
    ) by {
        assert(before[h] == names[h]);
    }
    lemma_respelled(tables, before);
    lemma_spelling(tables, names.last());
    if k < before.len() {
        lemma_respelled_at(tables, before, k);
    }
}

proof fn lemma_first_spelling(tables: Seq<String>, name: Seq<char>, i: int)
    requires
        0 <= i < tables.len(),
        outside::lowercase_text(tables[i]@) == name,
        forall|h: int| 0 <= h < i ==> outside::lowercase_text((#[trigger] tables[h])@) != name,
    ensures
        spelling(tables, name) == Some(tables[i]@),
    decreases tables.len(),
{
    if i > 0 {
        let rest = tables.drop_first();
        assert forall|h: int| 0 <= h < i - 1 implies outside::lowercase_text((#[trigger] rest[h])@) != name by {
            assert(rest[h] == tables[h + 1]);
        }
        assert(outside::lowercase_text(tables[0]@) != name);
        lemma_first_spelling(rest, name, i - 1);
    }
}

/// Whether dependencies say the same about the tables of a set.
pub open spec fn same_dependencies(names: Set<Seq<char>>, deps: Seq<FkDependency>, others: Seq<FkDependency>) -> bool {
    forall|t: Seq<char>, p: Seq<char>|
        names.contains(t) && names.contains(p) ==> (#[trigger] depends_on(deps, t, p) <==> depends_on(others, t, p))
}

proof fn lemma_same_order(
    names: Set<Seq<char>>,
    deps: Seq<FkDependency>,
    others: Seq<FkDependency>,
    order: Seq<Seq<char>>,
)
    requires
        same_dependencies(names, deps, others),
        is_dependency_order(names, deps, order),
    ensures
        is_dependency_order(names, others, order),
{
    let sorted = choose|sorted: int| in_dependency_order(names, deps, order, sorted);
    assert forall|t: Seq<char>| names.contains(t) implies #[trigger] is_free(names, deps, t) == is_free(
        names,
        others,
        t,
    ) by {
        if is_free(names, deps, t) {
            assert forall|p: Seq<char>| names.contains(p) implies !#[trigger] depends_on(others, t, p) by {
                assert(!depends_on(deps, t, p));
            }
        }
        if is_free(names, others, t) {
            assert forall|p: Seq<char>| names.contains(p) implies !#[trigger] depends_on(deps, t, p) by {
                assert(!depends_on(others, t, p));
            }
        }
    }
    assert forall|placed: Seq<Seq<char>>, t: Seq<char>| #[trigger] is_ready(names, deps, placed, t) == is_ready(
        names,
        others,
        placed,
        t,
    ) by {
        if is_ready(names, deps, placed, t) {
            assert forall|p: Seq<char>| names.contains(p) && #[trigger] depends_on(others, t, p) implies placed.contains(
                p,
            ) by {
                assert(depends_on(deps, t, p));
            }
        }
        if is_ready(names, others, placed, t) {
            assert forall|p: Seq<char>| names.contains(p) && #[trigger] depends_on(deps, t, p) implies placed.contains(
                p,
            ) by {
                assert(depends_on(others, t, p));
            }
        }
    }
    assert forall|p: int| 0 <= p < sorted implies is_next(names, others, order.take(p), #[trigger] order[p]) by {
        assert(is_next(names, deps, order.take(p), order[p]));
        let placed = order.take(p);
        assert(is_ready(names, deps, placed, order[p]));
        assert forall|u: Seq<char>| #[trigger] is_ready(names, others, placed, u) && u != order[p] implies goes_first(
            names,
            others,
            order[p],
            u,
        ) by {
            assert(is_ready(names, deps, placed, u));
            assert(goes_first(names, deps, order[p], u));
            assert(is_free(names, deps, u) == is_free(names, others, u));
            assert(is_free(names, deps, order[p]) == is_free(names, others, order[p]));
        }
    }
    assert forall|t: Seq<char>| !#[trigger] is_ready(names, others, order.take(sorted), t) by {
        assert(!is_ready(names, deps, order.take(sorted), t));
    }
    assert(in_dependency_order(names, others, order, sorted));
}

proof fn lemma_same_spelling(tables: Seq<String>, others: Seq<String>, name: Seq<char>)
    requires
        text::texts(tables) == text::texts(others),
    ensures
        spelling(tables, name) == spelling(others, name),
    decreases tables.len(),
{
    assert(text::texts(tables).len() == tables.len());
    assert(text::texts(others).len() == others.len());
    if tables.len() > 0 {
        assert(text::texts(tables)[0] == tables[0]@);
        assert(text::texts(others)[0] == others[0]@);
        assert(text::texts(tables.drop_first()) =~= text::texts(tables).drop_first());
        assert(text::texts(others.drop_first()) =~= text::texts(others).drop_first());
        lemma_same_spelling(tables.drop_first(), others.drop_first(), name);
    }
}

proof fn lemma_same_respelled(tables: Seq<String>, others: Seq<String>, names: Seq<Seq<char>>)
    requires
        text::texts(tables) == text::texts(others),
    ensures
        respelled(tables, names) == respelled(others, names),
    decreases names.len(),
{
    if names.len() > 0 {
        lemma_same_respelled(tables, others, names.drop_last());
        lemma_same_spelling(tables, others, names.last());
    }
}

/// The order of tables rests on the texts of their names.
pub proof fn order_rests_on_texts(tables: Seq<String>, others: Seq<String>, deps: Seq<FkDependency>)
    requires
        text::texts(tables) == text::texts(others),
    ensures
        insert_order(tables, deps) == insert_order(others, deps),
{
    lemma_lowercase_names(tables);
    lemma_lowercase_names(others);
    let names = collections::lowercase_names(tables);
    assert(names =~= collections::lowercase_names(others));
    lemma_same_respelled(tables, others, dependency_order(names, deps));
}

/// Whether no two spellings of a name are among the tables.
pub open spec fn spelled_one_way(tables: Seq<String>) -> bool {
    forall|a: Seq<char>, b: Seq<char>|
        #![trigger text::texts(tables).contains(a), text::texts(tables).contains(b)]
        text::texts(tables).contains(a) && text::texts(tables).contains(b) && outside::lowercase_text(a)
            == outside::lowercase_text(b) ==> a == b
}

/// The order of tables rests on the tables that there are and on which of them depend on which,
/// and on nothing else: not on the order in which tables and foreign keys are given, nor how
/// often, nor on foreign keys that involve other tables.
pub proof fn order_rests_on_tables_and_dependencies(
    tables: Seq<String>,
    deps: Seq<FkDependency>,
    other_tables: Seq<String>,
    other_deps: Seq<FkDependency>,
)
    requires
        forall|t: Seq<char>| #[trigger] text::texts(tables).contains(t) <==> text::texts(other_tables).contains(t),
        spelled_one_way(tables),
        same_dependencies(collections::lowercase_names(tables), deps, other_deps),
    ensures
        insert_order(tables, deps) == insert_order(other_tables, other_deps),
        insert_order(tables, deps).reverse() == insert_order(other_tables, other_deps).reverse(),
{
    let names = collections::lowercase_names(tables);
    assert(names =~= collections::lowercase_names(other_tables)) by {
        lemma_lowercase_names(tables);
        lemma_lowercase_names(other_tables);
        assert forall|k: Seq<char>| names.contains(k) <==> collections::lowercase_names(other_tables).contains(k) by {
            if names.contains(k) {
                let t = choose|t: Seq<char>| #[trigger] text::texts(tables).contains(t) && outside::lowercase_text(t) == k;
                assert(text::texts(other_tables).contains(t));
            }
            if collections::lowercase_names(other_tables).contains(k) {
                let t = choose|t: Seq<char>| #[trigger]
                    text::texts(other_tables).contains(t) && outside::lowercase_text(t) == k;
                assert(text::texts(tables).contains(t));
            }
        }
    }
    dependency_order_exists(tables, deps);
    dependency_order_exists(other_tables, other_deps);
    let sorted = dependency_order(names, deps);
    lemma_same_order(names, deps, other_deps, sorted);
    dependency_order_is_unique(names, other_deps, sorted, dependency_order(names, other_deps));
    assert forall|k: int| 0 <= k < sorted.len() implies names.contains(#[trigger] sorted[k]) by {
        assert(sorted.contains(sorted[k]));
    }
    lemma_respelled(tables, sorted);
    lemma_respelled(other_tables, sorted);
    let order = respelled(tables, sorted);
    let other = respelled(other_tables, sorted);
    assert forall|k: int| 0 <= k < sorted.len() implies order[k] == other[k] by {
        assert(text::texts(tables).contains(order[k]));
        assert(text::texts(other_tables).contains(other[k]));
        assert(text::texts(tables).contains(other[k]));
    }
    assert(order =~= other);
}

proof fn lemma_lowercase_names(tables: Seq<String>)
    ensures
        forall|k: Seq<char>| #[trigger]
            collections::lowercase_names(tables).contains(k) <==> exists|t: Seq<char>| #[trigger]
                text::texts(tables).contains(t) && outside::lowercase_text(t) == k,
{
    let names = collections::lowercase_names(tables);
    assert forall|k: Seq<char>| #[trigger] names.contains(k) <==> exists|t: Seq<char>| #[trigger]
        text::texts(tables).contains(t) && outside::lowercase_text(t) == k by {
        if names.contains(k) {
            let i = choose|i: int| 0 <= i < tables.len() && outside::lowercase_text((#[trigger] tables[i])@) == k;
            assert(text::texts(tables)[i] == tables[i]@);
            assert(text::texts(tables).contains(tables[i]@));
        }
        if exists|t: Seq<char>| #[trigger] text::texts(tables).contains(t) && outside::lowercase_text(t) == k {
            let t = choose|t: Seq<char>| #[trigger] text::texts(tables).contains(t) && outside::lowercase_text(t) == k;
            let i = text::texts(tables).index_of(t);
            assert(tables[i]@ == t);
        }
    }
}

} // verus!
