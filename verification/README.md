# everyfile

The index and search engine of a file finder for Windows, written in Rust and verified with
Verus. It lists the files of NTFS volumes from their raw file records, follows the change
journal, answers queries while one types, and hands out sorted pages of the results.

## Layout

- `src/` is the library. Its functions are verified, but for those that call other crates and
  parts of std without a contract: these state what they are trusted to do (`outside`, and
  one each in `rows` and `text`).
  - Records: `bytes`, `fixup`, `data_runs`, `attributes`, `record_details`, `mft_scan`,
    `record_paths`, `ntfs_time`, `aligned_reader`, `mft_error`.
  - Scans: `full_scan`, `legacy_scan`, `walking`, `rewalking`, `usn_records`, `polling`,
    `usn_types`.
  - The index: `path_table`, `fid_index`, `volume_monitor`, `volume_map`, `volume_manager`,
    `updates`, `incremental`, `changes`, `keys`, `merging`, `remapping`.
  - Search: `query`, `globs`, `search`, `search_cache`, `sort_cache`, `rows`, `scene`, `paging`,
    `searching`, `sorting`.
  - What holds of every state that the methods leave: `soundness`, with `sound_batches`,
    `sound_volumes` and `sound_merges`, which show that each method keeps it.
  - What holds of the result list as a whole: `reached`, `sound_pages` and `shown_changes` in
    such a state; `result_list`, `batches`, `delta_index`, `counting`, `merged_rows`,
    `renaming`, `elsewhere` and `time_order` from less.
  - What holds of the scans of the file table: `scan_counts`, `scan_modes`.
  - What the program does with it: `commands_search`, `export`, `volumes`, `config`,
    `startup`, `shell_menu`, `icon`, `file_logger`, `database`, `wide`, `named_order`,
    `error`.
  - `text` and `seqs` hold helpers.
- `tests/` runs the library from outside.
- `app/` is the program: windows, disks, journals, settings and logs. It hands plain values
  to the library and does what the library decides.

## Contracts

`VolumeManager::is_sound` gathers what every state has in common that is reached through the
methods: the numbers lead to the volumes, the changes fit the volumes, and the last search has
matched what its query takes and counts and sorts it as it is. It holds of a new index, and the
methods say in their `ensures` that they keep it; the laws on the result list ask for it alone.
A volume that is taken out leaves a gap until it is given back, and a volume that was walked
again may leave a file matched that the query takes no more, until the next search.
`VolumeManager::fits` says that the machine can number what there is.

A function's `ensures` says what it gives for every input that its `requires` admits, over
models made of sequences, sets and maps. Some results of other crates have names instead of
definitions (`outside`): whether a glob or regular expression matches, how letters are
lowered, how a date reads. Contracts that go through them speak of the names.
