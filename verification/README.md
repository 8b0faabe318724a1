# keepass-extract

A command-line tool that extracts one entry from a KeePass (.kdbx) database:
it finds the entry by title in any group, then prints one field, lists the
field names, or writes every field to its own file (mode 600) in a folder.

- `src/` is the verified library (Verus): the vault tree model and the
  depth-first entry search (`vault`), the choice of what to export and the
  exit statuses (`extract`), the export plan and console output (`export`),
  and file-name sanitising, ASCII case folding and trimming (`text`).
- `app/` is the program around it: argument parsing, password input,
  opening the database, and writing files.

Exit codes: 51 database file not found, 61 entry not found, 62 several
entries share the title (the first is exported), 71 field not found.
