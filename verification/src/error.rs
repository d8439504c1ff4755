//! Errors reported by the object model, and the status codes of the storage engine
//! from which they are classified.

use vstd::prelude::*;

verus! {

/// Status code with which the storage engine reports success.
pub const NC_NOERR: i32 = 0;

/// Status: the handle names no open container.
pub const NC_EBADID: i32 = -33;

/// Status: the name is taken in the scope where it was to be defined.
pub const NC_ENAMEINUSE: i32 = -42;

/// Status: no attribute of that name.
pub const NC_ENOTATT: i32 = -43;

/// Status: the type identifier names no type.
pub const NC_EBADTYPE: i32 = -45;

/// Status: no dimension of that name or handle.
pub const NC_EBADDIM: i32 = -46;

/// Status: no variable of that name or handle.
pub const NC_ENOTVAR: i32 = -49;

/// Status: the name is longer than the engine accepts.
pub const NC_EMAXNAME: i32 = -53;

/// Status: text was asked for as numbers, or numbers as text.
pub const NC_ECHAR: i32 = -56;

/// Status: the name holds characters that the engine refuses.
pub const NC_EBADNAME: i32 = -59;

/// Status: the handle names no group.
pub const NC_EBADGRPID: i32 = -116;

/// Status: the handle names no user-defined type.
pub const NC_EBADTYPID: i32 = -117;

/// Status: no group of that name.
pub const NC_ENOGRP: i32 = -125;

/// What can go wrong in an operation on a container.
#[derive(Debug, Clone, Copy, PartialEq, Eq, Structural)]
pub enum Error {
    /// A name or a handle was looked up and is not there.
    NotFound,
    /// A name breaks the rules on length or on the characters it may hold.
    InvalidName,
    /// The name is taken in the scope where it was to be defined.
    AlreadyExists,
    /// A value was asked for, or given, as a kind that does not fit.
    TypeMismatch,
    /// The storage engine named a type that the object model has no kind for.
    Unsupported,
    /// Any other failure of the storage engine, with its status code.
    Engine(i32),
}

/// True of the status codes that report a lookup miss: a name or a handle
/// that the engine does not know.
pub open spec fn is_lookup_miss(status: i32) -> bool {
    status == NC_EBADID || status == NC_ENOTATT || status == NC_EBADDIM || status == NC_ENOTVAR
        || status == NC_EBADGRPID || status == NC_EBADTYPID || status == NC_ENOGRP
}

/// The error that stands for a failing status code of the storage engine.
///
/// Every code that has no class of its own is kept as it is, inside
/// [`Error::Engine`].
pub open spec fn error_of_status(status: i32) -> Error {
    if is_lookup_miss(status) {
        Error::NotFound
    } else if status == NC_EBADNAME || status == NC_EMAXNAME {
        Error::InvalidName
    } else if status == NC_ENAMEINUSE {
        Error::AlreadyExists
    } else if status == NC_ECHAR {
        Error::TypeMismatch
    } else if status == NC_EBADTYPE {
        Error::Unsupported
    } else {
        Error::Engine(status)
    }
}

/// Classifies a failing status code.
pub fn classify(status: i32) -> (e: Error)
    ensures
        e == error_of_status(status),
{
    if status == NC_EBADID || status == NC_ENOTATT || status == NC_EBADDIM || status == NC_ENOTVAR
        || status == NC_EBADGRPID || status == NC_EBADTYPID || status == NC_ENOGRP {
        Error::NotFound
    } else if status == NC_EBADNAME || status == NC_EMAXNAME {
        Error::InvalidName
    } else if status == NC_ENAMEINUSE {
        Error::AlreadyExists
    } else if status == NC_ECHAR {
        Error::TypeMismatch
    } else if status == NC_EBADTYPE {
        Error::Unsupported
    } else {
        Error::Engine(status)
    }
}

/// Turns the status code of an engine call into a result: success for
/// [`NC_NOERR`], and for every other code the error that classifies it.
pub fn checked(status: i32) -> (r: Result<(), Error>)
    ensures
        status == NC_NOERR ==> r == Ok::<(), Error>(()),
        status != NC_NOERR ==> r == Err::<(), Error>(error_of_status(status)),
{
    if status == NC_NOERR {
        Ok(())
    } else {
        Err(classify(status))
    }
}

impl Error {
    /// The status code that the engine gave, where the error carries one.
    pub fn status(&self) -> (r: Option<i32>)
        ensures
            r == (match *self {
                Error::Engine(code) => Some(code),
                _ => None::<i32>,
            }),
    {
        match self {
            Error::Engine(code) => Some(*code),
            _ => None,
        }
    }
}

} // verus!
