//! Saved workspace locations, merge buffers, open requests and the folder
//! picker.
pub mod workspace_service;
pub mod merge_service;
pub mod open_service;
pub mod system_service;
