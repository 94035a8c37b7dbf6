# filetree

A terminal disk-usage browser: it scans a directory tree in parallel, shows
it as a sortable, filterable tree with size bars and charts, lists the
largest files and the space per extension, exports reports, and deletes
entries behind confirmation dialogs.

## Layout

- `src/` — the library, verified with Verus. Path handling, the scan tree
  and its merge rules, the listing patches sent while a scan runs, sorting,
  byte and rate formatting, the progress panel, report export, the delete
  guards, key and mouse handling, and every piece of text the screen shows
  are specified by `requires`/`ensures` contracts over spec models and
  proved. Properties that span several calls are stated as public proof
  functions named `law_*`.
- `app/` — the program around the library: command line, file-system
  access, the parallel scan workers, the terminal event loop and drawing.
  It hands the library plain values and shows what comes back.
- `tests/` — tests of the library on concrete values.
