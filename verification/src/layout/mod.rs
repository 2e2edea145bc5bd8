pub mod args;
pub mod block;
pub mod conversions;
pub mod entry;
pub mod errors;
pub mod header;
pub mod ieee754;
pub mod settings;
pub mod text;
pub mod types;
pub mod value;
