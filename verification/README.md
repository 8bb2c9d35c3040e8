# carved_delegation

Restores delegation state that was carved back out of a wiped voting database.

`restore_carved_delegation` takes a connection, a round, a wallet and the carved
bundles. It looks the round up, reads each bundle's row, and overwrites the rows
that do not hold the carved secret yet. It refuses to overwrite a different
delegation that was itself broadcast. The caller supplies the transaction.

SQLite is reached through rusqlite. Nothing is claimed of what a database
answers: a `Session` logs each statement with the values bound to it and the
answer, and the contracts say which statements follow which answers and what is
concluded (`src/restore.rs`). `src/tables.rs` says what such a log does to the
rows of a database that answers, and `src/laws.rs` proves what holds of a restore
on such a database: that it is idempotent, that it keeps other broadcasts, that no
row mixes two generations. Whatever the answers, no row is created, and only the
rows that the bundles name are written.
