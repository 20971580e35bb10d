# hive

The core of Hive, a Windows Registry editor, as a library verified with Verus,
with the window around it in `app/`.

## Layout

- `src/text.rs`: text as `Seq<char>`: trimming, splitting, lines, words, joining,
  replacing, with the laws that tie splitting and joining together.
- `src/num.rs`: decimal and hexadecimal digits, and unsigned parsing with the
  semantics of `from_str_radix`.
- `src/paths.rs`: root keys and their names, full paths (`HKEY_...\sub\key`), how
  a path is read back, and which keys navigation fetches and expands.
- `src/values.rs`: registry values, their type names, and the text the edit
  dialogs show and read back.
- `src/reg_export.rs`: the `.reg` text that an export writes, and the walk over
  the key tree that writes each key once and every subkey of a written key.
- `src/reg_import.rs`: reading a `.reg` file into the keys and values it creates,
  and the law that reading an exported file gives back what was exported.
- `src/format.rs`: sizes in B/KB/MB/GB, computed exactly in integers, and clock times.
- `src/editor.rs`: the editor's state (selection, path bar, search debounce,
  dialogs, sync mode) and the decisions taken on each event.
- `src/panels.rs`: the smaller decisions of the panels (child caps, search
  filters, result and status texts).
- `app/`: `main`, egui panels, file dialogs, the clipboard and the registry store;
  it hands events to the library and performs the actions it returns.
