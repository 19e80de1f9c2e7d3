//! Batch renaming of image files by regular expression, with previews.
pub mod app;
pub mod files;
pub mod filter;
pub mod jpeg;
pub mod pathlist;
pub mod picture;
pub mod opt;
pub mod paths;
pub mod preview;
pub mod raw;
pub mod rename;
pub mod text;
pub mod thumbnail;
pub mod thumbs;
