# tusk

The verified core of a desktop database client (PostgreSQL and SQLite).

- `src/` is the library, checked by Verus:
  - `numeric` decodes PostgreSQL `numeric` values from their binary wire
    format; `numeric_value` proves that the text denotes the value of the
    digit groups, cut to the display scale.
  - `sql` writes the statements of the SQLite driver, with table and column
    names as quoted identifiers that always read back as the same name.
  - `sqlite` turns column values into result cells and shapes result sets,
    pages, schema rows and connection descriptions.
  - `transfer` writes CSV export files; it reads import files (through the
    `csv` crate), matches their header to the columns of a table and plans
    the inserts.
  - `ssh` decides the order of SSH authentication (private key, then password).
  - `text` holds the character-level helpers they share.
- `app/` holds the live connections and the I/O: SQLite files, PostgreSQL
  clients, CSV files and the SSH tunnel.
- `tests/` exercises the library, including against an in-memory SQLite database.
