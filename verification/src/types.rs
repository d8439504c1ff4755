//! The kinds of value that a variable or an attribute holds.

use vstd::prelude::*;
use vstd::utf8::encode_utf8;
use crate::engine::{RawType, Request, RequestView};
use crate::error::{checked, error_of_status, Error, NC_EBADTYPE, NC_NOERR};
use crate::utils::{
    buffer_name, is_valid_name, name_from_buffer, padded, short_name_to_bytes, valid_name,
};

verus! {

/// Type identifier: signed 8-bit integer.
pub const NC_BYTE: i32 = 1;

/// Type identifier: character of text.
pub const NC_CHAR: i32 = 2;

/// Type identifier: signed 16-bit integer.
pub const NC_SHORT: i32 = 3;

/// Type identifier: signed 32-bit integer.
pub const NC_INT: i32 = 4;

/// Type identifier: 32-bit floating point.
pub const NC_FLOAT: i32 = 5;

/// Type identifier: 64-bit floating point.
pub const NC_DOUBLE: i32 = 6;

/// Type identifier: unsigned 8-bit integer.
pub const NC_UBYTE: i32 = 7;

/// Type identifier: unsigned 16-bit integer.
pub const NC_USHORT: i32 = 8;

/// Type identifier: unsigned 32-bit integer.
pub const NC_UINT: i32 = 9;

/// Type identifier: signed 64-bit integer.
pub const NC_INT64: i32 = 10;

/// Type identifier: unsigned 64-bit integer.
pub const NC_UINT64: i32 = 11;

/// Type identifier: string of variable length.
pub const NC_STRING: i32 = 12;

/// Class of a user-defined type: opaque bytes.
pub const NC_OPAQUE: i32 = 14;

/// Class of a user-defined type: enumeration.
pub const NC_ENUM: i32 = 15;

/// Class of a user-defined type: compound.
pub const NC_COMPOUND: i32 = 16;

/// Simple atomic types.
#[derive(Debug, Clone, Copy, PartialEq, Eq, Structural)]
pub enum SimpleType {
    U8,
    I8,
    U16,
    I16,
    U32,
    I32,
    U64,
    I64,
    F32,
    F64,
}

/// Descriptor of a user-defined type. The object model carries it and does
/// not look into the type.
#[derive(Debug)]
pub struct UserType {
    name: String,
    ncid: i32,
    typeid: i32,
    size: usize,
}

/// What a [`UserType`] stands for.
pub struct UserTypeView {
    pub name: Seq<char>,
    pub ncid: i32,
    pub typeid: i32,
    pub size: usize,
}

/// A type of values in a container.
#[derive(Debug)]
pub enum Type {
    /// The atomic type
    Simple(SimpleType),
    /// A string type
    String,
    /// Opaque bytes of a fixed size
    Opaque(UserType),
    /// An enumeration
    Enum(UserType),
    /// A compound of fields
    Compound(UserType),
}

/// What a [`Type`] stands for.
pub enum TypeView {
    Simple(SimpleType),
    String,
    Opaque(UserTypeView),
    Enum(UserTypeView),
    Compound(UserTypeView),
}

impl View for UserType {
    type V = UserTypeView;

    closed spec fn view(&self) -> UserTypeView {
        UserTypeView { name: self.name@, ncid: self.ncid, typeid: self.typeid, size: self.size }
    }
}

impl View for Type {
    type V = TypeView;

    open spec fn view(&self) -> TypeView {
        match *self {
            Type::Simple(t) => TypeView::Simple(t),
            Type::String => TypeView::String,
            Type::Opaque(u) => TypeView::Opaque(u@),
            Type::Enum(u) => TypeView::Enum(u@),
            Type::Compound(u) => TypeView::Compound(u@),
        }
    }
}

/// The views of a sequence of types, in order.
pub open spec fn type_views(types: Seq<Type>) -> Seq<TypeView> {
    types.map_values(|t: Type| t@)
}

/// The atomic kind that a type identifier of the engine names, if it names one.
pub open spec fn simple_of_id(xtype: i32) -> Option<SimpleType> {
    if xtype == NC_UBYTE {
        Some(SimpleType::U8)
    } else if xtype == NC_BYTE {
        Some(SimpleType::I8)
    } else if xtype == NC_USHORT {
        Some(SimpleType::U16)
    } else if xtype == NC_SHORT {
        Some(SimpleType::I16)
    } else if xtype == NC_UINT {
        Some(SimpleType::U32)
    } else if xtype == NC_INT {
        Some(SimpleType::I32)
    } else if xtype == NC_UINT64 {
        Some(SimpleType::U64)
    } else if xtype == NC_INT64 {
        Some(SimpleType::I64)
    } else if xtype == NC_FLOAT {
        Some(SimpleType::F32)
    } else if xtype == NC_DOUBLE {
        Some(SimpleType::F64)
    } else {
        None
    }
}

/// The built-in type that a type identifier names: an atomic kind or the
/// string type. `None` for every other identifier.
pub open spec fn builtin_of_id(xtype: i32) -> Option<TypeView> {
    if xtype == NC_STRING {
        Some(TypeView::String)
    } else {
        match simple_of_id(xtype) {
            Some(t) => Some(TypeView::Simple(t)),
            None => None,
        }
    }
}

/// The type identifier under which the engine knows an atomic kind.
pub open spec fn id_of_simple(t: SimpleType) -> i32 {
    match t {
        SimpleType::U8 => NC_UBYTE,
        SimpleType::I8 => NC_BYTE,
        SimpleType::U16 => NC_USHORT,
        SimpleType::I16 => NC_SHORT,
        SimpleType::U32 => NC_UINT,
        SimpleType::I32 => NC_INT,
        SimpleType::U64 => NC_UINT64,
        SimpleType::I64 => NC_INT64,
        SimpleType::F32 => NC_FLOAT,
        SimpleType::F64 => NC_DOUBLE,
    }
}

/// The user-defined type that the engine's record describes, seen from the
/// group `ncid`; `None` where the class is none of opaque, enumeration and
/// compound.
pub open spec fn user_type_of(ncid: i32, raw: RawType) -> Option<TypeView> {
    let descriptor = UserTypeView {
        name: buffer_name(raw.name@),
        ncid,
        typeid: raw.typeid,
        size: raw.size,
    };
    if raw.class == NC_OPAQUE {
        Some(TypeView::Opaque(descriptor))
    } else if raw.class == NC_ENUM {
        Some(TypeView::Enum(descriptor))
    } else if raw.class == NC_COMPOUND {
        Some(TypeView::Compound(descriptor))
    } else {
        None
    }
}

/// True when every record is of a class that the object model has a kind for.
pub open spec fn classes_known(ncid: i32, raw: Seq<RawType>) -> bool {
    forall|i: int| 0 <= i < raw.len() ==> user_type_of(ncid, #[trigger] raw[i]).is_some()
}

/// The user-defined types that the engine's records describe, in order.
pub open spec fn user_types_of(ncid: i32, raw: Seq<RawType>) -> Seq<TypeView>
    recommends
        classes_known(ncid, raw),
{
    raw.map_values(|r: RawType| user_type_of(ncid, r).unwrap())
}

impl SimpleType {
    /// The atomic kind that a type identifier names.
    pub fn from_id(xtype: i32) -> (r: Option<SimpleType>)
        ensures
            r == simple_of_id(xtype),
    {
        if xtype == NC_UBYTE {
            Some(SimpleType::U8)
        } else if xtype == NC_BYTE {
            Some(SimpleType::I8)
        } else if xtype == NC_USHORT {
            Some(SimpleType::U16)
        } else if xtype == NC_SHORT {
            Some(SimpleType::I16)
        } else if xtype == NC_UINT {
            Some(SimpleType::U32)
        } else if xtype == NC_INT {
            Some(SimpleType::I32)
        } else if xtype == NC_UINT64 {
            Some(SimpleType::U64)
        } else if xtype == NC_INT64 {
            Some(SimpleType::I64)
        } else if xtype == NC_FLOAT {
            Some(SimpleType::F32)
        } else if xtype == NC_DOUBLE {
            Some(SimpleType::F64)
        } else {
            None
        }
    }

    /// The type identifier under which the engine knows this kind.
    pub fn id(&self) -> (xtype: i32)
        ensures
            xtype == id_of_simple(*self),
            simple_of_id(xtype) == Some(*self),
    {
        match self {
            SimpleType::U8 => NC_UBYTE,
            SimpleType::I8 => NC_BYTE,
            SimpleType::U16 => NC_USHORT,
            SimpleType::I16 => NC_SHORT,
            SimpleType::U32 => NC_UINT,
            SimpleType::I32 => NC_INT,
            SimpleType::U64 => NC_UINT64,
            SimpleType::I64 => NC_INT64,
            SimpleType::F32 => NC_FLOAT,
            SimpleType::F64 => NC_DOUBLE,
        }
    }
}

impl UserType {
    /// Describes a user-defined type of the group `ncid`.
    pub fn new(name: String, ncid: i32, typeid: i32, size: usize) -> (r: UserType)
        ensures
            r@ == (UserTypeView { name: name@, ncid, typeid, size }),
    {
        UserType { name, ncid, typeid, size }
    }

    /// Name of the type.
    pub fn name(&self) -> (r: String)
        ensures
            r@ == self@.name,
    {
        self.name.clone()
    }

    /// Handle of the group that defines the type.
    pub fn ncid(&self) -> (r: i32)
        ensures
            r == self@.ncid,
    {
        self.ncid
    }

    /// Handle of the type.
    pub fn typeid(&self) -> (r: i32)
        ensures
            r == self@.typeid,
    {
        self.typeid
    }

    /// Size of one value of the type, in bytes.
    pub fn size(&self) -> (r: usize)
        ensures
            r == self@.size,
    {
        self.size
    }
}

impl Clone for UserType {
    fn clone(&self) -> (r: UserType)
        ensures
            r@ == self@,
    {
        UserType {
            name: self.name.clone(),
            ncid: self.ncid,
            typeid: self.typeid,
            size: self.size,
        }
    }
}

impl Clone for Type {
    fn clone(&self) -> (r: Type)
        ensures
            r@ == self@,
    {
        match self {
            Type::Simple(t) => Type::Simple(*t),
            Type::String => Type::String,
            Type::Opaque(u) => Type::Opaque(u.clone()),
            Type::Enum(u) => Type::Enum(u.clone()),
            Type::Compound(u) => Type::Compound(u.clone()),
        }
    }
}

impl Type {
    /// The built-in type that a type identifier names. An identifier that
    /// names none is refused with [`Error::Unsupported`].
    pub fn from_id(xtype: i32) -> (r: Result<Type, Error>)
        ensures
            builtin_of_id(xtype).is_some() ==> r.is_ok() && r.unwrap()@ == builtin_of_id(
                xtype,
            ).unwrap(),
            builtin_of_id(xtype).is_none() ==> r.is_err() && r.unwrap_err()
                == Error::Unsupported,
    {
        if xtype == NC_STRING {
            Ok(Type::String)
        } else {
            match SimpleType::from_id(xtype) {
                Some(t) => Ok(Type::Simple(t)),
                None => Err(Error::Unsupported),
            }
        }
    }
}

/// Tells whether a type identifier names an atomic kind.
pub fn is_simple(xtype: i32) -> (r: bool)
    ensures
        r == simple_of_id(xtype).is_some(),
{
    xtype == NC_UBYTE || xtype == NC_BYTE || xtype == NC_USHORT || xtype == NC_SHORT || xtype
        == NC_UINT || xtype == NC_INT || xtype == NC_UINT64 || xtype == NC_INT64 || xtype
        == NC_FLOAT || xtype == NC_DOUBLE
}

/// Reads the engine's answer to the question of which type a variable has:
/// the error that classifies a failing status, else whether the type is an
/// atomic kind.
pub fn is_simple_ncid(status: i32, xtype: i32) -> (r: Result<bool, Error>)
    ensures
        status == NC_NOERR ==> r == Ok::<bool, Error>(simple_of_id(xtype).is_some()),
        status != NC_NOERR ==> r == Err::<bool, Error>(error_of_status(status)),
{
    match checked(status) {
        Ok(()) => Ok(is_simple(xtype)),
        Err(e) => Err(e),
    }
}

/// What is handed to the engine to ask which type a variable has.
pub fn variable_type_request(ncid: i32, varid: i32) -> (r: Request)
    ensures
        r@ == (RequestView::InquireVariableType { ncid, varid }),
{
    Request::InquireVariableType { ncid, varid }
}

/// What is handed to the engine to look a type up by its name in the group
/// `ncid`. Nothing is to be asked where the name is not acceptable.
pub fn type_request(ncid: i32, name: &str) -> (r: Result<Request, Error>)
    ensures
        !valid_name(name@) ==> r.is_err() && r.unwrap_err() == Error::InvalidName,
        valid_name(name@) ==> r.is_ok() && r.unwrap()@ == (RequestView::InquireType {
            ncid,
            name: padded(encode_utf8(name@)),
        }),
{
    match short_name_to_bytes(name) {
        Ok(bytes) => Ok(Request::InquireType { ncid, name: bytes }),
        Err(e) => Err(e),
    }
}

/// What a lookup of a type by name comes to, given the engine's answer.
pub open spec fn type_lookup(name: Seq<char>, status: i32, xtype: i32) -> Result<
    Option<TypeView>,
    Error,
> {
    if !valid_name(name) {
        Err(Error::InvalidName)
    } else if status == NC_EBADTYPE {
        Ok(None)
    } else if status != NC_NOERR {
        Err(error_of_status(status))
    } else if builtin_of_id(xtype).is_some() {
        Ok(builtin_of_id(xtype))
    } else {
        Err(Error::Unsupported)
    }
}

/// Reads the engine's answer to a lookup of a type by name.
///
/// A name that the engine could not be asked about is [`Error::InvalidName`],
/// whatever the answer. The status [`NC_EBADTYPE`] means that no type has the
/// name, which is no error. Any other failing status is the error that
/// classifies it. Of the identifiers that the engine may name, the built-in
/// ones give their type and the others are [`Error::Unsupported`].
pub fn type_from_name(name: &str, status: i32, xtype: i32) -> (r: Result<Option<Type>, Error>)
    ensures
        match type_lookup(name@, status, xtype) {
            Ok(Some(t)) => r.is_ok() && r.unwrap().is_some() && r.unwrap().unwrap()@ == t,
            Ok(None) => r.is_ok() && r.unwrap().is_none(),
            Err(e) => r.is_err() && r.unwrap_err() == e,
        },
{
    if !is_valid_name(name) {
        return Err(Error::InvalidName);
    }
    if status == NC_EBADTYPE {
        return Ok(None);
    }
    match checked(status) {
        Ok(()) => {},
        Err(e) => {
            return Err(e);
        },
    }
    match Type::from_id(xtype) {
        Ok(t) => Ok(Some(t)),
        Err(e) => Err(e),
    }
}

/// Builds the descriptor of one user-defined type from the engine's record.
pub fn user_type(ncid: i32, raw: &RawType) -> (r: Result<Type, Error>)
    ensures
        user_type_of(ncid, *raw).is_some() ==> r.is_ok() && r.unwrap()@ == user_type_of(
            ncid,
            *raw,
        ).unwrap(),
        user_type_of(ncid, *raw).is_none() ==> r.is_err() && r.unwrap_err()
            == Error::Unsupported,
{
    let name = name_from_buffer(raw.name.as_slice());
    if raw.class == NC_OPAQUE {
        Ok(Type::Opaque(UserType::new(name, ncid, raw.typeid, raw.size)))
    } else if raw.class == NC_ENUM {
        Ok(Type::Enum(UserType::new(name, ncid, raw.typeid, raw.size)))
    } else if raw.class == NC_COMPOUND {
        Ok(Type::Compound(UserType::new(name, ncid, raw.typeid, raw.size)))
    } else {
        Err(Error::Unsupported)
    }
}

/// Builds the user-defined types of the group `ncid` from the engine's
/// records, in the engine's order.
///
/// Succeeds exactly when every record is of a known class; a record of
/// another class is refused with [`Error::Unsupported`].
pub fn get_types(ncid: i32, raw: &Vec<RawType>) -> (r: Result<Vec<Type>, Error>)
    ensures
        classes_known(ncid, raw@) ==> r.is_ok() && type_views(r.unwrap()@) == user_types_of(
            ncid,
            raw@,
        ),
        !classes_known(ncid, raw@) ==> r.is_err() && r.unwrap_err() == Error::Unsupported,
{
    let mut types: Vec<Type> = Vec::new();
    let mut i: usize = 0;
    while i < raw.len()
        invariant
            i <= raw@.len(),
            types@.len() == i,
            forall|k: int| 0 <= k < i ==> user_type_of(ncid, #[trigger] raw@[k]).is_some(),
            forall|k: int|
                0 <= k < i ==> (#[trigger] types@[k])@ == user_type_of(ncid, raw@[k]).unwrap(),
        decreases raw@.len() - i,
    {
        match user_type(ncid, &raw[i]) {
            Ok(t) => {
                types.push(t);
            },
            Err(e) => {
                return Err(e);
            },
        }
        i += 1;
    }
    assert(type_views(types@) =~= user_types_of(ncid, raw@));
    Ok(types)
}

} // verus!
