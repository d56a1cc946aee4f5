//! A verified indexing core for photo collections stored as zip archives.
//!
//! The library builds and merges per-archive metadata caches, answers
//! paginated queries over the merged view (by file name, by capture
//! year/month, or by typed EXIF-tag predicate), materializes thumbnail
//! bytes for individual photos, and plans batched object-detection work.
//! All file and directory I/O stays outside: callers hand the library the
//! bytes of archives and the parsed contents of cache files, and the
//! library hands back what to persist.

pub mod cache;
pub mod decimal;
pub mod detect;
pub mod error;
pub mod exif_data;
pub mod exif_read;
pub mod image_format;
pub mod image_ops;
pub mod photo;
pub mod text;
pub mod tools;
pub mod zip_store;
