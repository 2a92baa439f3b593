# diff_data

Compares the data of two PostgreSQL databases, and writes the SQL that makes the target like the
reference: INSERT and UPDATE statements for rows that are missing or differ, DELETE statements for
rows that the reference does not have, and a master script that runs them.

The library under `src/` holds the logic, with contracts that Verus proves. It does no I/O: a
comparison is a value that says what to fetch next, takes what was fetched, and says what to write.

| Module | What it holds |
| --- | --- |
| `text`, `collections`, `instant` | texts, maps and sets of names, points in time |
| `types`, `config`, `error` | values, columns, reports, options, errors |
| `sql_gen` | SQL statements as text |
| `metadata` | columns, keys, and the order that foreign keys put tables in |
| `schema_compare` | whether two tables can be compared |
| `chunk_strategy`, `estimation` | how a table is split, and how long that takes |
| `table_diff`, `delete_sync` | the statements for one table |
| `data_diff`, `single_file` | the comparison of two databases, and its scripts |
| `checksum` | manifests of row hashes, and what two of them tell apart |
| `row_keys`, `batching`, `comparison_laws`, `instant_laws` | laws: of keys as texts, of batches, of manifests, of times as texts |
| `outside` | the calls into std and other crates, with what is taken from them unproved |

The program under `app/` holds the command line, the connections, the files, and what computes with
floating point numbers.
