//! Attributes: named values attached to a group or to one variable.

use vstd::prelude::*;
use vstd::utf8::encode_utf8;
use crate::engine::{RawAttribute, Request, RequestView};
use crate::error::{checked, error_of_status, Error, NC_NOERR};
use crate::file::{with_groups, File};
use crate::tree::{GroupView};
use crate::variable::VariableView;
use crate::types::{
    NC_BYTE, NC_CHAR, NC_DOUBLE, NC_FLOAT, NC_INT, NC_INT64, NC_SHORT, NC_STRING, NC_UBYTE,
    NC_UINT, NC_UINT64, NC_USHORT,
};
use crate::utils::{
    buffer_name, is_valid_name, lemma_name_index, lemma_name_index_push, name_from_buffer,
    name_index, names_distinct, names_of, padded, position_of, short_name_to_bytes, valid_name,
    Named,
};

verus! {

/// In place of the handle of a variable: the attribute belongs to the group.
pub const NC_GLOBAL: i32 = -1;

/// The value of an attribute: an array of one atomic kind, a text, or an
/// array of strings. A single number is an array of one element. Floating
/// point numbers are held by their bit patterns.
#[derive(Debug, PartialEq, Eq)]
pub enum AttrValue {
    Uchars(Vec<u8>),
    Schars(Vec<i8>),
    Ushorts(Vec<u16>),
    Shorts(Vec<i16>),
    Uints(Vec<u32>),
    Ints(Vec<i32>),
    Ulonglongs(Vec<u64>),
    Longlongs(Vec<i64>),
    /// 32-bit floating point numbers, each by its bits.
    Floats(Vec<u32>),
    /// 64-bit floating point numbers, each by its bits.
    Doubles(Vec<u64>),
    Str(String),
    Strs(Vec<String>),
}

/// What an [`AttrValue`] stands for.
pub enum AttrValueView {
    Uchars(Seq<u8>),
    Schars(Seq<i8>),
    Ushorts(Seq<u16>),
    Shorts(Seq<i16>),
    Uints(Seq<u32>),
    Ints(Seq<i32>),
    Ulonglongs(Seq<u64>),
    Longlongs(Seq<i64>),
    Floats(Seq<u32>),
    Doubles(Seq<u64>),
    Str(Seq<char>),
    Strs(Seq<Seq<char>>),
}

/// The texts of a sequence of strings, in order.
pub open spec fn string_views(strings: Seq<String>) -> Seq<Seq<char>> {
    strings.map_values(|s: String| s@)
}

impl View for AttrValue {
    type V = AttrValueView;

    open spec fn view(&self) -> AttrValueView {
        match *self {
            AttrValue::Uchars(v) => AttrValueView::Uchars(v@),
            AttrValue::Schars(v) => AttrValueView::Schars(v@),
            AttrValue::Ushorts(v) => AttrValueView::Ushorts(v@),
            AttrValue::Shorts(v) => AttrValueView::Shorts(v@),
            AttrValue::Uints(v) => AttrValueView::Uints(v@),
            AttrValue::Ints(v) => AttrValueView::Ints(v@),
            AttrValue::Ulonglongs(v) => AttrValueView::Ulonglongs(v@),
            AttrValue::Longlongs(v) => AttrValueView::Longlongs(v@),
            AttrValue::Floats(v) => AttrValueView::Floats(v@),
            AttrValue::Doubles(v) => AttrValueView::Doubles(v@),
            AttrValue::Str(s) => AttrValueView::Str(s@),
            AttrValue::Strs(v) => AttrValueView::Strs(string_views(v@)),
        }
    }
}

/// The type identifier under which the engine stores a value.
pub open spec fn value_xtype(value: AttrValueView) -> i32 {
    match value {
        AttrValueView::Uchars(_) => NC_UBYTE,
        AttrValueView::Schars(_) => NC_BYTE,
        AttrValueView::Ushorts(_) => NC_USHORT,
        AttrValueView::Shorts(_) => NC_SHORT,
        AttrValueView::Uints(_) => NC_UINT,
        AttrValueView::Ints(_) => NC_INT,
        AttrValueView::Ulonglongs(_) => NC_UINT64,
        AttrValueView::Longlongs(_) => NC_INT64,
        AttrValueView::Floats(_) => NC_FLOAT,
        AttrValueView::Doubles(_) => NC_DOUBLE,
        AttrValueView::Str(_) => NC_CHAR,
        AttrValueView::Strs(_) => NC_STRING,
    }
}

/// The number of elements of a value; for a text, of its bytes.
pub open spec fn value_len(value: AttrValueView) -> nat {
    match value {
        AttrValueView::Uchars(v) => v.len(),
        AttrValueView::Schars(v) => v.len(),
        AttrValueView::Ushorts(v) => v.len(),
        AttrValueView::Shorts(v) => v.len(),
        AttrValueView::Uints(v) => v.len(),
        AttrValueView::Ints(v) => v.len(),
        AttrValueView::Ulonglongs(v) => v.len(),
        AttrValueView::Longlongs(v) => v.len(),
        AttrValueView::Floats(v) => v.len(),
        AttrValueView::Doubles(v) => v.len(),
        AttrValueView::Str(s) => vstd::utf8::encode_utf8(s).len(),
        AttrValueView::Strs(v) => v.len(),
    }
}

/// True of the type identifiers that an attribute value can have.
pub open spec fn attribute_type_known(xtype: i32) -> bool {
    xtype == NC_UBYTE || xtype == NC_BYTE || xtype == NC_USHORT || xtype == NC_SHORT || xtype
        == NC_UINT || xtype == NC_INT || xtype == NC_UINT64 || xtype == NC_INT64 || xtype
        == NC_FLOAT || xtype == NC_DOUBLE || xtype == NC_CHAR || xtype == NC_STRING
}

/// An attribute: a name, the type identifier under which the engine holds
/// its value, and the value where it is of a kind that this library has.
#[derive(Debug, PartialEq, Eq)]
pub struct Attribute {
    name: String,
    ncid: i32,
    varid: i32,
    xtype: i32,
    value: Option<AttrValue>,
}

/// What an [`Attribute`] stands for.
pub struct AttributeView {
    /// Name of the attribute.
    pub name: Seq<char>,
    /// Handle of the group that the attribute is in.
    pub ncid: i32,
    /// Handle of the variable that the attribute belongs to, or
    /// [`NC_GLOBAL`] for an attribute of the group.
    pub varid: i32,
    /// Type identifier of the value.
    pub xtype: i32,
    /// The value as it was read or put; `None` where none was read.
    pub value: Option<AttrValueView>,
}

/// What a value that may be missing stands for.
pub open spec fn value_view(value: Option<AttrValue>) -> Option<AttrValueView> {
    match value {
        Some(v) => Some(v@),
        None => None,
    }
}

impl View for Attribute {
    type V = AttributeView;

    closed spec fn view(&self) -> AttributeView {
        AttributeView {
            name: self.name@,
            ncid: self.ncid,
            varid: self.varid,
            xtype: self.xtype,
            value: value_view(self.value),
        }
    }
}

impl Named for Attribute {
    open spec fn spec_name(&self) -> Seq<char> {
        self@.name
    }

    fn name_ref(&self) -> (r: &String) {
        &self.name
    }
}

/// The views of a sequence of attributes, in order.
pub open spec fn attribute_views(attrs: Seq<Attribute>) -> Seq<AttributeView> {
    attrs.map_values(|a: Attribute| a@)
}

/// The names of a sequence of attributes, in order.
pub open spec fn attribute_names(attrs: Seq<AttributeView>) -> Seq<Seq<char>> {
    attrs.map_values(|a: AttributeView| a.name)
}

/// The attribute that holds the given value under the given name: its type
/// identifier is that of the value.
pub open spec fn attribute_with(name: Seq<char>, ncid: i32, varid: i32, value: AttrValueView)
    -> AttributeView {
    AttributeView { name, ncid, varid, xtype: value_xtype(value), value: Some(value) }
}

/// What asking an attribute for its value comes to. A type identifier that
/// no value of this library can have is [`Error::Unsupported`]. Where the
/// type identifier is known, the value must be there and of that kind:
/// else the answer is [`Error::TypeMismatch`].
pub open spec fn held_value(a: AttributeView) -> Result<AttrValueView, Error> {
    if !attribute_type_known(a.xtype) {
        Err(Error::Unsupported)
    } else {
        match a.value {
            Some(v) => if value_xtype(v) == a.xtype {
                Ok(v)
            } else {
                Err(Error::TypeMismatch)
            },
            None => Err(Error::TypeMismatch),
        }
    }
}

/// The attribute that the engine's record describes. Every record gives an
/// attribute, whatever its type: what can not be had of it is its value.
pub open spec fn attribute_of(ncid: i32, varid: i32, raw: RawAttribute) -> AttributeView {
    AttributeView {
        name: buffer_name(raw.name@),
        ncid,
        varid,
        xtype: raw.xtype,
        value: value_view(raw.value),
    }
}

/// The attributes that the engine's records describe, in order.
pub open spec fn attributes_of(ncid: i32, varid: i32, raw: Seq<RawAttribute>) -> Seq<
    AttributeView,
> {
    raw.map_values(|r: RawAttribute| attribute_of(ncid, varid, r))
}

/// The attributes after `attr` was put among them: in the place of the
/// first attribute of the same name, or at the end if there is none.
pub open spec fn put_attribute(attrs: Seq<AttributeView>, attr: AttributeView) -> Seq<
    AttributeView,
> {
    let at = name_index(attribute_names(attrs), attr.name);
    if at < attrs.len() {
        attrs.update(at, attr)
    } else {
        attrs.push(attr)
    }
}

/// Copies a vector of plain values.
fn copy_values<T: Copy>(values: &Vec<T>) -> (r: Vec<T>)
    ensures
        r@ == values@,
{
    let mut copy: Vec<T> = Vec::new();
    let mut i: usize = 0;
    while i < values.len()
        invariant
            i <= values@.len(),
            copy@ == values@.take(i as int),
        decreases values@.len() - i,
    {
        copy.push(values[i]);
        assert(values@.take(i as int).push(values@[i as int]) =~= values@.take(i + 1));
        i += 1;
    }
    assert(values@.take(i as int) =~= values@);
    copy
}

/// Copies a vector of strings.
fn copy_strings(strings: &Vec<String>) -> (r: Vec<String>)
    ensures
        string_views(r@) == string_views(strings@),
{
    let mut copy: Vec<String> = Vec::new();
    let mut i: usize = 0;
    while i < strings.len()
        invariant
            i <= strings@.len(),
            copy@.len() == i,
            forall|k: int| 0 <= k < i ==> copy@[k]@ == strings@[k]@,
        decreases strings@.len() - i,
    {
        copy.push(strings[i].clone());
        i += 1;
    }
    assert(string_views(copy@) =~= string_views(strings@));
    copy
}

impl Clone for AttrValue {
    fn clone(&self) -> (r: AttrValue)
        ensures
            r@ == self@,
    {
        match self {
            AttrValue::Uchars(v) => AttrValue::Uchars(copy_values(v)),
            AttrValue::Schars(v) => AttrValue::Schars(copy_values(v)),
            AttrValue::Ushorts(v) => AttrValue::Ushorts(copy_values(v)),
            AttrValue::Shorts(v) => AttrValue::Shorts(copy_values(v)),
            AttrValue::Uints(v) => AttrValue::Uints(copy_values(v)),
            AttrValue::Ints(v) => AttrValue::Ints(copy_values(v)),
            AttrValue::Ulonglongs(v) => AttrValue::Ulonglongs(copy_values(v)),
            AttrValue::Longlongs(v) => AttrValue::Longlongs(copy_values(v)),
            AttrValue::Floats(v) => AttrValue::Floats(copy_values(v)),
            AttrValue::Doubles(v) => AttrValue::Doubles(copy_values(v)),
            AttrValue::Str(s) => AttrValue::Str(s.clone()),
            AttrValue::Strs(v) => AttrValue::Strs(copy_strings(v)),
        }
    }
}

impl AttrValue {
    /// The type identifier under which the engine stores the value.
    pub fn xtype(&self) -> (r: i32)
        ensures
            r == value_xtype(self@),
            attribute_type_known(r),
    {
        match self {
            AttrValue::Uchars(_) => NC_UBYTE,
            AttrValue::Schars(_) => NC_BYTE,
            AttrValue::Ushorts(_) => NC_USHORT,
            AttrValue::Shorts(_) => NC_SHORT,
            AttrValue::Uints(_) => NC_UINT,
            AttrValue::Ints(_) => NC_INT,
            AttrValue::Ulonglongs(_) => NC_UINT64,
            AttrValue::Longlongs(_) => NC_INT64,
            AttrValue::Floats(_) => NC_FLOAT,
            AttrValue::Doubles(_) => NC_DOUBLE,
            AttrValue::Str(_) => NC_CHAR,
            AttrValue::Strs(_) => NC_STRING,
        }
    }
}

impl AttrValue {
    /// The number of elements of the value; for a text, of its bytes.
    pub fn len(&self) -> (r: usize)
        ensures
            r == value_len(self@) as usize,
    {
        match self {
            AttrValue::Uchars(v) => v.len(),
            AttrValue::Schars(v) => v.len(),
            AttrValue::Ushorts(v) => v.len(),
            AttrValue::Shorts(v) => v.len(),
            AttrValue::Uints(v) => v.len(),
            AttrValue::Ints(v) => v.len(),
            AttrValue::Ulonglongs(v) => v.len(),
            AttrValue::Longlongs(v) => v.len(),
            AttrValue::Floats(v) => v.len(),
            AttrValue::Doubles(v) => v.len(),
            AttrValue::Str(s) => s.as_str().len(),
            AttrValue::Strs(v) => {
                assert(string_views(v@).len() == v@.len());
                v.len()
            },
        }
    }
}

/// Tells whether a type identifier is one that an attribute value can have.
pub fn is_attribute_type(xtype: i32) -> (r: bool)
    ensures
        r == attribute_type_known(xtype),
{
    xtype == NC_UBYTE || xtype == NC_BYTE || xtype == NC_USHORT || xtype == NC_SHORT || xtype
        == NC_UINT || xtype == NC_INT || xtype == NC_UINT64 || xtype == NC_INT64 || xtype
        == NC_FLOAT || xtype == NC_DOUBLE || xtype == NC_CHAR || xtype == NC_STRING
}

/// Copies a value that may be missing.
fn copy_value(value: &Option<AttrValue>) -> (r: Option<AttrValue>)
    ensures
        value_view(r) == value_view(*value),
{
    match value {
        Some(v) => Some(v.clone()),
        None => None,
    }
}

impl Clone for Attribute {
    fn clone(&self) -> (r: Attribute)
        ensures
            r@ == self@,
    {
        Attribute {
            name: self.name.clone(),
            ncid: self.ncid,
            varid: self.varid,
            xtype: self.xtype,
            value: copy_value(&self.value),
        }
    }
}

impl Attribute {
    /// An attribute of the group `ncid` that holds the given value; of its
    /// variable `varid`, or of the group itself where `varid` is
    /// [`NC_GLOBAL`].
    pub fn new(name: String, ncid: i32, varid: i32, value: AttrValue) -> (a: Attribute)
        ensures
            a@ == attribute_with(name@, ncid, varid, value@),
            held_value(a@) == Ok::<AttrValueView, Error>(value@),
    {
        let xtype = value.xtype();
        Attribute { name, ncid, varid, xtype, value: Some(value) }
    }

    /// Builds an attribute from the engine's record. A record of any type
    /// gives an attribute; see [`Attribute::value`] for what is had of it.
    pub fn from_raw(ncid: i32, varid: i32, raw: &RawAttribute) -> (a: Attribute)
        ensures
            a@ == attribute_of(ncid, varid, *raw),
    {
        let name = name_from_buffer(raw.name.as_slice());
        Attribute { name, ncid, varid, xtype: raw.xtype, value: copy_value(&raw.value) }
    }

    /// Name of the attribute.
    pub fn name(&self) -> (r: String)
        ensures
            r@ == self@.name,
    {
        self.name.clone()
    }

    /// Type identifier under which the engine holds the value.
    pub fn xtype(&self) -> (r: i32)
        ensures
            r == self@.xtype,
    {
        self.xtype
    }

    /// The value of the attribute.
    ///
    /// Fails with [`Error::Unsupported`] where the value is of a type that
    /// this library has no kind for, and with [`Error::TypeMismatch`] where
    /// no value of the kind that its type identifier asks for was read.
    pub fn value(&self) -> (r: Result<&AttrValue, Error>)
        ensures
            match held_value(self@) {
                Ok(v) => r.is_ok() && r.unwrap()@ == v,
                Err(e) => r.is_err() && r.unwrap_err() == e,
            },
    {
        if !is_attribute_type(self.xtype) {
            return Err(Error::Unsupported);
        }
        match &self.value {
            Some(v) => {
                if v.xtype() == self.xtype {
                    Ok(v)
                } else {
                    Err(Error::TypeMismatch)
                }
            },
            None => Err(Error::TypeMismatch),
        }
    }

    /// Handle of the variable that the attribute belongs to; `None` for an
    /// attribute of the group.
    pub fn variable(&self) -> (r: Option<i32>)
        ensures
            r == if self@.varid == NC_GLOBAL {
                None
            } else {
                Some(self@.varid)
            },
    {
        if self.varid == NC_GLOBAL {
            None
        } else {
            Some(self.varid)
        }
    }
}

/// Builds the attributes of one scope from the engine's records, in the
/// engine's order: those of the variable `varid` of the group `ncid`, or of
/// the group itself where `varid` is [`NC_GLOBAL`].
pub fn get_attributes(ncid: i32, varid: i32, raw: &Vec<RawAttribute>) -> (r: Vec<Attribute>)
    ensures
        attribute_views(r@) == attributes_of(ncid, varid, raw@),
{
    let mut attributes: Vec<Attribute> = Vec::new();
    let mut i: usize = 0;
    while i < raw.len()
        invariant
            i <= raw@.len(),
            attributes@.len() == i,
            forall|k: int|
                0 <= k < i ==> (#[trigger] attributes@[k])@ == attribute_of(ncid, varid, raw@[k]),
        decreases raw@.len() - i,
    {
        attributes.push(Attribute::from_raw(ncid, varid, &raw[i]));
        i += 1;
    }
    assert(attribute_views(attributes@) =~= attributes_of(ncid, varid, raw@));
    attributes
}

/// Puts an attribute among those of its scope: in the place of the first
/// attribute of the same name, whose value it replaces, or at the end if
/// there is none. Returns the position at which it stands.
pub fn put(attributes: &mut Vec<Attribute>, attr: Attribute) -> (at: usize)
    ensures
        attribute_views(final(attributes)@) == put_attribute(
            attribute_views(old(attributes)@),
            attr@,
        ),
        at == name_index(attribute_names(attribute_views(old(attributes)@)), attr@.name),
        at < final(attributes)@.len(),
        final(attributes)@[at as int]@ == attr@,
{
    let ghost before = attribute_views(attributes@);
    let ghost added = attr@;
    proof {
        assert(names_of(attributes@) =~= attribute_names(before));
        lemma_name_index(attribute_names(before), added.name);
    }
    let found = position_of(attributes, attr.name.as_str());
    match found {
        Some(at) => {
            attributes[at] = attr;
            assert(attribute_views(attributes@) =~= before.update(at as int, added));
            at
        },
        None => {
            let at = attributes.len();
            attributes.push(attr);
            assert(attribute_views(attributes@) =~= before.push(added));
            at
        },
    }
}

/// Putting an attribute among attributes of distinct names leaves the names
/// distinct, and the attribute is then found by its name.
pub proof fn lemma_put_attribute(attrs: Seq<AttributeView>, attr: AttributeView)
    ensures
        names_distinct(attribute_names(attrs)) ==> names_distinct(
            attribute_names(put_attribute(attrs, attr)),
        ),
        name_index(attribute_names(put_attribute(attrs, attr)), attr.name) == name_index(
            attribute_names(attrs),
            attr.name,
        ),
        put_attribute(attrs, attr)[name_index(attribute_names(attrs), attr.name)] == attr,
{
    let names = attribute_names(attrs);
    let after = put_attribute(attrs, attr);
    let at = name_index(names, attr.name);
    lemma_name_index(names, attr.name);
    if at < attrs.len() {
        assert(attribute_names(after) =~= names);
    } else {
        assert(attribute_names(after) =~= names.push(attr.name));
        lemma_name_index_push(names, attr.name, attr.name);
    }
}

/// What comes of putting an attribute of the given name, given the engine's
/// answer: nothing to object to, or the reason why it is not put. A name
/// that the engine could not be asked about is refused, whatever the
/// answer; else a failing status is the error that classifies it.
pub open spec fn attribute_refused(name: Seq<char>, status: i32) -> Option<Error> {
    if !valid_name(name) {
        Some(Error::InvalidName)
    } else if status != NC_NOERR {
        Some(error_of_status(status))
    } else {
        None
    }
}

/// The groups after `attr` was put on the group at `g`.
pub open spec fn with_group_attribute(groups: Seq<GroupView>, g: int, attr: AttributeView) -> Seq<
    GroupView,
> {
    groups.update(
        g,
        GroupView { attributes: put_attribute(groups[g].attributes, attr), ..groups[g] },
    )
}

/// The groups after `attr` was put on the variable at `v` of the group at
/// `g`.
pub open spec fn with_variable_attribute(
    groups: Seq<GroupView>,
    g: int,
    v: int,
    attr: AttributeView,
) -> Seq<GroupView> {
    groups.update(
        g,
        GroupView {
            variables: groups[g].variables.update(
                v,
                VariableView {
                    attributes: put_attribute(groups[g].variables[v].attributes, attr),
                    ..groups[g].variables[v]
                },
            ),
            ..groups[g]
        },
    )
}

/// What is handed to the engine to put a value under a name: on the
/// variable `varid` of the group `ncid`, or on the group itself where
/// `varid` is [`NC_GLOBAL`].
///
/// Nothing is to be asked of the engine where the name is not acceptable.
pub(crate) fn attribute_request(ncid: i32, varid: i32, name: &str, value: &AttrValue) -> (r:
    Result<Request, Error>)
    ensures
        !valid_name(name@) ==> r.is_err() && r.unwrap_err() == Error::InvalidName,
        valid_name(name@) ==> r.is_ok() && r.unwrap()@ == (RequestView::PutAttribute {
            ncid,
            varid,
            name: padded(encode_utf8(name@)),
            xtype: value_xtype(value@),
            len: value_len(value@) as usize,
        }),
{
    match short_name_to_bytes(name) {
        Ok(bytes) => Ok(
            Request::PutAttribute {
                ncid,
                varid,
                name: bytes,
                xtype: value.xtype(),
                len: value.len(),
            },
        ),
        Err(e) => Err(e),
    }
}

/// Records a value that the engine was asked to put, under the given name,
/// on the group at `g`. `status` is the engine's answer.
///
/// The attribute takes the place of the first attribute of that name of
/// the group, or stands at the end if there is none. Where the name is not
/// acceptable or the engine failed, the container is left as it was.
pub(crate) fn add_attribute_at(
    file: &mut File,
    g: usize,
    name: &str,
    value: AttrValue,
    status: i32,
) -> (r: Result<Attribute, Error>)
    requires
        old(file).wf(),
        g < old(file)@.groups.len(),
    ensures
        final(file).wf(),
        match attribute_refused(name@, status) {
            None => {
                let attr = attribute_with(
                    name@,
                    old(file)@.groups[g as int].ncid,
                    NC_GLOBAL,
                    value@,
                );
                &&& r.is_ok()
                &&& r.unwrap()@ == attr
                &&& final(file)@ == with_groups(
                    old(file)@,
                    with_group_attribute(old(file)@.groups, g as int, attr),
                )
            },
            Some(e) => r.is_err() && r.unwrap_err() == e && final(file)@ == old(file)@,
        },
{
    if !is_valid_name(name) {
        return Err(Error::InvalidName);
    }
    match checked(status) {
        Ok(()) => {},
        Err(e) => {
            return Err(e);
        },
    }
    let ncid = file.nodes()[g].ncid();
    let attr = Attribute::new(name.to_owned(), ncid, NC_GLOBAL, value);
    let copy = attr.clone();
    file.put_group_attribute(g, attr);
    Ok(copy)
}

/// Records a value that the engine was asked to put, under the given name,
/// on the variable at `v` of the group at `g`. `status` is the engine's
/// answer.
pub(crate) fn add_variable_attribute_at(
    file: &mut File,
    g: usize,
    v: usize,
    name: &str,
    value: AttrValue,
    status: i32,
) -> (r: Result<Attribute, Error>)
    requires
        old(file).wf(),
        g < old(file)@.groups.len(),
        v < old(file)@.groups[g as int].variables.len(),
    ensures
        final(file).wf(),
        match attribute_refused(name@, status) {
            None => {
                let attr = attribute_with(
                    name@,
                    old(file)@.groups[g as int].ncid,
                    old(file)@.groups[g as int].variables[v as int].varid,
                    value@,
                );
                &&& r.is_ok()
                &&& r.unwrap()@ == attr
                &&& final(file)@ == with_groups(
                    old(file)@,
                    with_variable_attribute(old(file)@.groups, g as int, v as int, attr),
                )
            },
            Some(e) => r.is_err() && r.unwrap_err() == e && final(file)@ == old(file)@,
        },
{
    if !is_valid_name(name) {
        return Err(Error::InvalidName);
    }
    match checked(status) {
        Ok(()) => {},
        Err(e) => {
            return Err(e);
        },
    }
    let ncid = file.nodes()[g].ncid();
    let varid = file.nodes()[g].variables()[v].varid();
    let attr = Attribute::new(name.to_owned(), ncid, varid, value);
    let copy = attr.clone();
    file.put_variable_attribute(g, v, attr);
    Ok(copy)
}

} // verus!
