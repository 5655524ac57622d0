//! Verified tools for tensor containers: files that hold a length-prefixed
//! JSON header, which describes named tensors and carries free-form
//! metadata, followed by the payloads of the tensors.
//!
//! - [`reader`] parses a container from bytes, [`container`] holds the
//!   checked table over the borrowed data region, [`order`] fixes the order
//!   of a table, and [`writer`] serializes a container again, with some
//!   payloads replaced.
//! - [`select`] chooses tensors by name prefix and at random, and
//!   [`transform`] applies a function to every word of a payload.
//! - [`metadata`] decodes metadata values, and [`naming`] derives file names
//!   from tensor names.
//! - [`lora`] puts these together for the tool that rescales two random
//!   blocks of a LoRA file.
//! - [`captions`] and [`files`] hold helpers for caption files and file
//!   extensions.

pub mod text;
pub mod dtype;
pub mod error;
pub mod layout;
pub mod header;
pub mod order;
pub mod container;
pub mod reader;
pub mod writer;
pub mod transform;
pub mod select;
pub mod naming;
pub mod metadata;
pub mod lora;
pub mod files;
pub mod captions;

pub use crate::captions::split_content;
pub use crate::files::is_image_file;
pub use crate::metadata::get_json_metadata;
