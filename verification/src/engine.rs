//! What the storage engine reports of a container, as plain records.
//!
//! The engine is asked outside this library. Its answers come in as the
//! records below, names still in the buffers that the engine filled.

use vstd::prelude::*;
use crate::attribute::AttrValue;

verus! {

/// One call of the storage engine, with all that is handed to it.
#[derive(Debug, PartialEq, Eq)]
pub enum Request {
    /// Open the container at a path, in the given mode.
    Open { path: String, mode: i32 },
    /// Open a container that lies in `size` bytes of memory.
    OpenMemory { path: String, mode: i32, size: usize },
    /// Create a container at a path, in the given mode.
    Create { path: String, mode: i32 },
    /// Close a container.
    Close { ncid: i32 },
    /// Define a dimension in a group; a length of zero asks for one that grows.
    DefineDimension { ncid: i32, name: Vec<u8>, len: usize },
    /// Define a subgroup of a group.
    DefineGroup { ncid: i32, name: Vec<u8> },
    /// Define a variable in a group, shaped by the dimensions of the given handles.
    DefineVariable { ncid: i32, name: Vec<u8>, xtype: i32, dimids: Vec<i32> },
    /// Put a value of `len` elements of the given type on a group or a variable.
    PutAttribute { ncid: i32, varid: i32, name: Vec<u8>, xtype: i32, len: usize },
    /// Ask for the current length of a dimension.
    InquireDimensionLength { ncid: i32, dimid: i32 },
    /// Ask for the type of a given name.
    InquireType { ncid: i32, name: Vec<u8> },
    /// Ask for the type of a variable.
    InquireVariableType { ncid: i32, varid: i32 },
}

/// What a [`Request`] stands for.
pub enum RequestView {
    Open { path: Seq<char>, mode: i32 },
    OpenMemory { path: Seq<char>, mode: i32, size: usize },
    Create { path: Seq<char>, mode: i32 },
    Close { ncid: i32 },
    DefineDimension { ncid: i32, name: Seq<u8>, len: usize },
    DefineGroup { ncid: i32, name: Seq<u8> },
    DefineVariable { ncid: i32, name: Seq<u8>, xtype: i32, dimids: Seq<i32> },
    PutAttribute { ncid: i32, varid: i32, name: Seq<u8>, xtype: i32, len: usize },
    InquireDimensionLength { ncid: i32, dimid: i32 },
    InquireType { ncid: i32, name: Seq<u8> },
    InquireVariableType { ncid: i32, varid: i32 },
}

impl View for Request {
    type V = RequestView;

    open spec fn view(&self) -> RequestView {
        match *self {
            Request::Open { path, mode } => RequestView::Open { path: path@, mode },
            Request::OpenMemory { path, mode, size } => RequestView::OpenMemory {
                path: path@,
                mode,
                size,
            },
            Request::Create { path, mode } => RequestView::Create { path: path@, mode },
            Request::Close { ncid } => RequestView::Close { ncid },
            Request::DefineDimension { ncid, name, len } => RequestView::DefineDimension {
                ncid,
                name: name@,
                len,
            },
            Request::DefineGroup { ncid, name } => RequestView::DefineGroup { ncid, name: name@ },
            Request::DefineVariable { ncid, name, xtype, dimids } => RequestView::DefineVariable {
                ncid,
                name: name@,
                xtype,
                dimids: dimids@,
            },
            Request::PutAttribute { ncid, varid, name, xtype, len } => RequestView::PutAttribute {
                ncid,
                varid,
                name: name@,
                xtype,
                len,
            },
            Request::InquireDimensionLength { ncid, dimid } => RequestView::InquireDimensionLength {
                ncid,
                dimid,
            },
            Request::InquireType { ncid, name } => RequestView::InquireType { ncid, name: name@ },
            Request::InquireVariableType { ncid, varid } => RequestView::InquireVariableType {
                ncid,
                varid,
            },
        }
    }
}

/// A dimension as the engine reports it.
pub struct RawDimension {
    /// Handle of the dimension.
    pub dimid: i32,
    /// Buffer with the name, NUL-terminated.
    pub name: Vec<u8>,
    /// Current length.
    pub len: usize,
}

/// A user-defined type as the engine reports it.
pub struct RawType {
    /// Handle of the type.
    pub typeid: i32,
    /// Buffer with the name, NUL-terminated.
    pub name: Vec<u8>,
    /// Size of one value, in bytes.
    pub size: usize,
    /// Class of the type: opaque, enumeration, compound or another.
    pub class: i32,
}

/// An attribute as the engine reports it.
pub struct RawAttribute {
    /// Buffer with the name, NUL-terminated.
    pub name: Vec<u8>,
    /// Type identifier of the value.
    pub xtype: i32,
    /// The value, read as the kind that the type identifier asks for;
    /// `None` where the type is one that no value of this library can hold.
    pub value: Option<AttrValue>,
}

/// A variable as the engine reports it.
pub struct RawVariable {
    /// Handle of the variable.
    pub varid: i32,
    /// Buffer with the name, NUL-terminated.
    pub name: Vec<u8>,
    /// Type identifier of the values.
    pub xtype: i32,
    /// Handles of the dimensions, in the order of the shape.
    pub dimids: Vec<i32>,
    /// The attributes of the variable.
    pub attributes: Vec<RawAttribute>,
}

/// A group as the engine reports it, with all that is below it.
pub struct RawGroup {
    /// Handle of the group; for the root, that of the container.
    pub grpid: i32,
    /// Buffer with the name, NUL-terminated.
    pub name: Vec<u8>,
    /// The dimensions that the group defines.
    pub dimensions: Vec<RawDimension>,
    /// Handles of those dimensions of the group that grow.
    pub unlimited: Vec<i32>,
    /// The user-defined types of the group.
    pub types: Vec<RawType>,
    /// The variables of the group.
    pub variables: Vec<RawVariable>,
    /// The attributes of the group itself.
    pub attributes: Vec<RawAttribute>,
    /// The subgroups.
    pub groups: Vec<RawGroup>,
}

} // verus!
