# ferris-scan

A disk usage analyzer: it scans a directory, shows what takes up space, lets you
browse the tree and delete from it, and exports it as CSV.

The library in `src/` holds the logic and is verified with Verus. It does no I/O:

- `path`, `node`, `tree`, `scan`: paths by components, the tree, how a walk
  becomes a tree, and scans step by step.
- `export`: the CSV document.
- `trail`, `front`, `tui`, `classic`, `gui`: browsing, and the states of the
  three front ends.
- `text`, `rows`, `treemap`: sizes as text, lines fitted to a width, tiles.
- `laws`: what holds across functions, such as that a directory shows the bytes
  of all files below it, that a deletion takes its size off every directory
  above it exactly once, and that every scanned entry can be found again.

The programs in `app/` walk directories, remove entries, write files and draw.
The name of the executable picks the front end (`ferris-scan-tui`,
`ferris-scan-gui`, or the plain lister). Building with the environment variable
`FERRIS_SCAN_PRO` set gives the edition with CSV export.

## Deleting

A deletion first removes the entry from disk. Only when that has succeeded does
the node leave the tree, and every directory above it becomes smaller by its size.
