//! A verified file-name index: path compression, query matching, sorted paging
//! over a scanned volume plus its pending changes, and the NTFS record parsing
//! that feeds it.

pub mod text;
pub mod sorting;
pub mod path_table;
pub mod outside;
pub mod search;
pub mod globs;
pub mod query;
pub mod query_lines;
pub mod sort_cache;
pub mod rows;
pub mod fid_index;
pub mod volume_monitor;
pub mod volume_map;
pub mod seqs;
pub mod keys;
pub mod scene;
pub mod search_cache;
pub mod paging;
pub mod changes;
pub mod merging;
pub mod error;
pub mod volume_manager;
pub mod searching;
pub mod incremental;
pub mod updates;
pub mod remapping;
pub mod walking;
pub mod rewalking;
pub mod remapped_places;
pub mod bytes;
pub mod little_endian;
pub mod fixup;
pub mod data_runs;
pub mod attributes;
pub mod record_details;
pub mod mft_scan;
pub mod record_layout;
pub mod record_extras;
pub mod run_layout;
pub mod table_reading;
pub mod ntfs_time;
pub mod record_paths;
pub mod usn_records;
pub mod journal_layout;
pub mod full_scan;
pub mod legacy_scan;
pub mod usn_types;
pub mod polling;
pub mod told_changes;
pub mod listed_files;
pub mod walked_files;
pub mod wide;
pub mod shell_menu;
pub mod commands_search;
pub mod export;
pub mod export_reading;
pub mod icon;
pub mod named_order;
pub mod volumes;
pub mod config;
pub mod startup;
pub mod aligned_reader;
pub mod mft_error;
pub mod file_logger;
pub mod database;
pub mod result_list;
pub mod delta_index;
pub mod batches;
pub mod soundness;
pub mod shown_changes;
pub mod sound_pages;
pub mod field_order;
pub mod shown_files;
pub mod shown_texts;
pub mod index_state;
pub mod reached;
pub mod sound_merges;
pub mod sound_volumes;
pub mod sound_batches;
pub mod merged_rows;
pub mod renaming;
pub mod elsewhere;
pub mod scan_counts;
pub mod scan_modes;
pub mod time_order;
pub mod counting;
