# excel_engine

A Verus library for consolidating bill-of-quantity tables found in
spreadsheet workbooks, with a thin desktop application around it.

- `src/` is the verified library:
  - `text`: white space, trimming and collapsing of texts, as spec
    functions with executable counterparts;
  - `normalization`: the normal form of item names and units (canonical
    composition, lower case, leading list marker removed, single spaces);
  - `models`: records, column mappings, file analyses and file statuses;
  - `sheet`: a rectangular block of cells and the decimal reading of
    numbers written with Vietnamese separators;
  - `header`: detection of the header row and of the column groups in it;
  - `parser`: extraction of records through a manual mapping, a detected
    header, or scattered name labels, and the analysis of each file;
  - `aggregator`: grouping of records by normalized name and unit;
  - `cache`, `pipeline`, `scanner`: the decisions of the cache, of the run
    over many files and of the file scan.
- `tests/` runs the library on concrete values.
- `app/` reads workbooks, keeps the SQLite cache, writes the result
  workbook, runs the files in parallel and talks to the user interface.
