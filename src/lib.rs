//! Easy interfaces for file i/o: the decisions behind them, verified.
//!
//! Paths are handled as text with Unix conventions (`/` separates parts).
//! The library works on values: the text of a file, the entries of a folder
//! walk, the working directory as a value. Reading and writing the disk and
//! the process environment is left to the caller, which hands the library
//! what it read and carries out what the library decides.
pub mod cd;
pub mod copy;
pub mod list;
pub mod modify;
pub mod path;
pub mod print;
pub mod text;
pub mod walk;

pub use cd::{cd, CdGuard, WorkingDir};
pub use copy::{copy_folder_plan, CopyStep};
pub use list::sort_paths;
pub use modify::replace_str_in_text;
pub use path::{
    file_name, get_file_extension, get_file_name, get_file_stem, get_last_path_component, join, parent_path,
    path_components, relative_path,
};
pub use print::{write_folder_tree, FolderEntry};
pub use walk::{files_among, WalkEntry};
