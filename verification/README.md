# aether_procs

The bookkeeping behind the browser's `servo:processes` page and its
`servo:` shortcut pages, written in Verus and proved against its contracts.

- `src/` is the verified library:
  - `text`, `decimal`: splitting text into fields, reading and writing
    unsigned decimal numbers.
  - `procfs`: `/proc/<pid>/stat` lines, command lines, process and thread
    names, resident memory.
  - `tree`: the processes that descend from the browser process.
  - `samples`, `processes`, `order`: CPU tick samples, the rows of the page
    (processes, their threads and the tabs they host), stable sorting.
  - `tab_stats`: the snapshot files that script threads publish, and which of
    them a collection keeps.
  - `weburl`: the short text shown for a tab's URL.
  - `servo_handler`: which page a shortcut names, who may read the process
    list, and the JSON bodies of the small pages.
  - `icons`, `menu`: toolbar texture names and the application menu's state.
- `app/` holds what the library leaves out: file and `/proc` access, the
  clock, floating-point CPU percentages, JSON output, and the egui toolbar
  and menu.
- `tests/` exercises the library on concrete values.
