//! Core logic of a batch file-renaming utility.
//!
//! A catalog of file records is imported from plain path/date descriptors,
//! edited field by field (tags, date, suffix, prefix), and every edit
//! recomputes each record's proposed new name from the whole batch.
//! Rename and undo execution is planned here and carried out by the host.

pub mod catalog;
pub mod date;
pub mod entry;
pub mod laws;
pub mod naming;
pub mod nums;
pub mod paths;
pub mod rename;

pub use catalog::AppState;
pub use catalog::CatalogModel;
pub use catalog::ImportItem;
pub use catalog::ItemModel;
pub use date::Date;
pub use date::format_date;
pub use entry::ErrorModel;
pub use entry::FileEntry;
pub use entry::RecordModel;
pub use entry::RenameError;
pub use entry::RenameHistoryEntry;
pub use entry::RenameResult;
pub use naming::generate_new_name;
pub use naming::update_all_new_names;
pub use nums::u64_to_string;
pub use paths::display_name_of;
pub use paths::path_extension;
pub use paths::with_file_name;
pub use rename::RenameStep;
pub use rename::plan_rename;
pub use rename::plan_undo;
pub use rename::rename_files;
pub use rename::undo_rename;
