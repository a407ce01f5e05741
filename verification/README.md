# bills_to_db

A small bookkeeping tool: scanned bills and booked expenses live in two
SQLite databases, a web front end lists them, links expenses to bills and
writes one report page per funding application.

- `src/` is the verified library (Verus): the records (`models`), the
  stable date order in which bills and expenses are listed (`order`), the
  SQL statements the front end runs (`statements`), decimal text
  (`text`), and the replies, redirect locations, report file names and
  backup decision of the handlers (`pages`).
- `app/` is the program around it: the actix-web server, the SQLite reads
  and writes, template rendering, and the PDF export through a headless
  Chrome (`app/main.rs to-pdf`).
- `tests/` runs the library on concrete values.
