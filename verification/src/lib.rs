//! Display and audio profile logic for Kaiser: the model of displays and
//! layouts, display identity (EDID hashing, adapter LUIDs), the planning of
//! topology changes, DPI scaling arithmetic and the profile store's bookkeeping.
//! The operating-system calls that read and change the machine's state live in
//! the application around this library.

pub mod display;
pub mod identity;
pub mod remap;
pub mod layout;
pub mod text;
pub mod topology;
pub mod apply;
pub mod resolution;
pub mod color;
pub mod profile;
pub mod audio;
pub mod cache;
pub mod session;
