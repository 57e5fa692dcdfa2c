//! The music library: catalog paths, browsing, folders, renaming, retention.
pub mod browse;
pub mod browse_window;
pub mod catalog_store;
pub mod catalog_tree;
pub mod embedded_tag_edit;
pub mod embedded_tags;
pub mod file_name;
pub mod file_rename;
pub mod filesystem;
pub mod incremental;
pub mod index_discovery;
pub mod indexer;
pub mod metadata;
pub mod metadata_batch;
pub mod metadata_query;
pub mod metadata_store;
pub mod monitor;
pub mod order;
pub mod path;
pub mod path_store;
pub mod rename_journal;
pub mod root_merge;
pub mod root_path;
pub mod root_purge;
pub mod root_retention;
pub mod root_store;
pub mod scanner;
pub mod search;
