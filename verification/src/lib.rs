//! An image viewer's logic: the folder's image list and
//! navigation through it, path text read as `std::path::Path` reads it, the
//! least-recently-used image cache, image decoding and size text, the
//! thumbnail grid, the viewer's reactions to events and keys, the desktop
//! shell's session state and its menu ids.
pub mod path;
pub mod order;
pub mod extensions;
pub mod file_manager;
pub mod thumbnails;
pub mod image_data;
pub mod image_cache;
pub mod viewer;
pub mod session;
pub mod menu;
