# db_versioning

Chooses the directory of a versioned cache database and decides which databases of other versions
are kept next to it. The decisions are written and verified in Verus; they never touch a file.

- `src/names.rs`: names of entries, the deletion prefix, and what is done with an entry.
- `src/age.rs`: how long ago a directory was last used.
- `src/recency.rs`: the order of directories by recency, and freshness.
- `src/selection.rs`: which directory is used, and how much is kept of the others.
- `src/session.rs`: the session, which asks for file operations and takes in what came of them.
- `src/laws.rs`: what holds of every session, whatever the file system answers.
- `app/lib.rs`: the driver that performs the operations on the real file system.
- `tests/`: the single decisions, and whole sessions against a file system kept in memory.
