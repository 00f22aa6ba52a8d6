//! Chapter bookkeeping, export planning and download-task decisions of a
//! comic downloader, with their contracts proved by Verus.
pub mod export;
pub mod text;
pub mod paths;
pub mod names;
pub mod chapter_info;
pub mod order;
pub mod cbz;
pub mod download_task;
