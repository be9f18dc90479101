//! Disk-resident ordered collections: the logic that sits between typed
//! collection calls and an embedded, byte-ordered key-value engine.

pub mod codec;
pub mod descriptor;
pub mod error;
pub mod guard;
pub mod mapi;
pub mod registry;
pub mod sequence;
pub mod value;

pub use descriptor::{from_descriptor, to_descriptor};
pub use error::StoreError;
pub use guard::{Entry, ValueMut};
pub use mapi::Mapi;
pub use registry::StoreRegistry;
pub use sequence::{SeqLength, SlotWrite};
pub use value::Value;
