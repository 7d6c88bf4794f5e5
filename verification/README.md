# silo

A local-first notes vault with a journal, a planner and a travel itinerary.

- `src/` is the library, verified with Verus: note ids and frontmatter, the
  markdown scanner (titles, wiki links, tags), the vault's file text, slugs,
  conflict paths and note ordering, the editor buffer (UTF-8/UTF-16 offsets,
  selections, edits), the sidebar tree, the command palette, the planner's
  calendar arithmetic and task list, the travel planner's state, and the
  application state machine that the window drives.
- `tests/` runs the library on concrete values.
- `app/` is the program around it: file and database I/O, file watching,
  serialisation, and the window.
