//! A safe object model over a hierarchical, self-describing array container.
//!
//! A container is a tree of named groups. Each group holds dimensions,
//! variables shaped by dimensions, attributes, and subgroups. A group sees
//! the dimensions of its ancestors and never those of its subgroups.
//!
//! The container itself is stored and encoded by a storage engine that this
//! library does not call. Every operation that needs the engine comes in two
//! parts: one says what is to be asked of the engine, as a
//! [`engine::Request`], and refuses what need not be asked at all; the other
//! takes what the engine answered and records what follows from it. What
//! the engine reports of a container that it has opened comes in as
//! [`engine::RawGroup`], from which [`File::open`] builds the whole tree;
//! [`File::open_or_close`] also says how to close a handle whose container
//! can not be used. No failure of the engine is turned into a value: it
//! comes back as the [`Error`] that classifies its status.
//!
//! Reading a container asks nothing of the engine, with one exception: the
//! length of a dimension that grows, which changes as variables are written
//! and is asked for each time ([`Dimension::length_request`],
//! [`Dimension::len`]).
//!
//! [`laws`] states what holds of the tree whatever is done to it.

pub mod attribute;
pub mod dimension;
pub mod dump;
pub mod engine;
pub mod error;
pub mod file;
pub mod group;
pub mod laws;
pub mod tree;
pub mod types;
pub mod utils;
pub mod variable;

pub use attribute::{AttrValue, Attribute};
pub use dimension::{Dimension, Identifier};
pub use error::Error;
pub use file::{File, MemFile};
pub use group::{Group, GroupMut};
pub use types::{SimpleType, Type};
pub use variable::{Variable, VariableMut};
