//! Dimensions: the named axes that give variables their shape.

use vstd::prelude::*;
use vstd::utf8::encode_utf8;
use crate::engine::{RawDimension, Request, RequestView};
use crate::error::{checked, error_of_status, Error, NC_NOERR};
use crate::file::{with_groups, File};
use crate::tree::{group_views, resolve_up, scope_dims, tree_wf, GroupData, GroupView};
use crate::utils::{
    buffer_name, is_valid_name, name_from_buffer, name_index, names_of, padded, position_of,
    short_name_to_bytes, valid_name, Named,
};

verus! {

/// Unique identifier of a dimension in a container. Used where names can
/// not be used directly.
#[derive(Debug, Clone, Copy, PartialEq, Eq, Structural)]
pub struct Identifier {
    /// Handle of the group that defines the dimension.
    pub ncid: i32,
    /// Handle of the dimension.
    pub dimid: i32,
}

/// A dimension of a container.
#[derive(Debug, PartialEq, Eq)]
pub struct Dimension {
    name: String,
    /// None when unlimited
    len: Option<usize>,
    id: Identifier,
}

/// What a [`Dimension`] stands for.
pub struct DimensionView {
    /// Name of the dimension.
    pub name: Seq<char>,
    /// The fixed length; `None` for a dimension that grows.
    pub len: Option<usize>,
    /// Identifier of the dimension.
    pub id: Identifier,
}

impl View for Dimension {
    type V = DimensionView;

    closed spec fn view(&self) -> DimensionView {
        DimensionView { name: self.name@, len: self.len, id: self.id }
    }
}

impl Named for Dimension {
    open spec fn spec_name(&self) -> Seq<char> {
        self@.name
    }

    fn name_ref(&self) -> (r: &String) {
        &self.name
    }
}

impl Clone for Dimension {
    fn clone(&self) -> (r: Dimension)
        ensures
            r@ == self@,
    {
        Dimension { name: self.name.clone(), len: self.len, id: self.id }
    }
}

/// The views of a sequence of dimensions, in order.
pub open spec fn dimension_views(dims: Seq<Dimension>) -> Seq<DimensionView> {
    dims.map_values(|d: Dimension| d@)
}

/// The names of a sequence of dimensions, in order.
pub open spec fn dimension_names(dims: Seq<DimensionView>) -> Seq<Seq<char>> {
    dims.map_values(|d: DimensionView| d.name)
}

/// A fixed length is positive: a dimension of length zero is one that grows.
pub open spec fn dimension_wf(d: DimensionView) -> bool {
    d.len != Some(0usize)
}

/// The length that a dimension is created with: zero asks for one that grows.
pub open spec fn length_of(len: usize) -> Option<usize> {
    if len == 0 {
        None
    } else {
        Some(len)
    }
}

/// The current length of a dimension. That of a fixed dimension is the
/// length it was created with, whatever the engine says. That of a
/// dimension that grows is what the engine answers when asked; where the
/// engine fails there is no length, but the error that classifies its
/// status.
pub open spec fn current_len(d: DimensionView, status: i32, answer: usize) -> Result<
    usize,
    Error,
> {
    match d.len {
        Some(n) => Ok(n),
        None => if status == NC_NOERR {
            Ok(answer)
        } else {
            Err(error_of_status(status))
        },
    }
}

/// The dimension that the engine's record describes in the group `ncid`.
/// It grows if the engine lists it among the unlimited dimensions of the
/// group, or reports no length for it.
pub open spec fn dimension_of(ncid: i32, raw: RawDimension, unlimited: Seq<i32>) -> DimensionView {
    DimensionView {
        name: buffer_name(raw.name@),
        len: if unlimited.contains(raw.dimid) {
            None
        } else {
            length_of(raw.len)
        },
        id: Identifier { ncid, dimid: raw.dimid },
    }
}

/// The dimensions that the engine's records describe, in order.
pub open spec fn dimensions_of(ncid: i32, raw: Seq<RawDimension>, unlimited: Seq<i32>) -> Seq<
    DimensionView,
> {
    raw.map_values(|r: RawDimension| dimension_of(ncid, r, unlimited))
}

/// What a dimension is looked up by.
pub enum Key<'a> {
    /// Its name.
    Name(&'a String),
    /// Its handle, whatever group defines it.
    Handle(i32),
    /// Its identifier: its handle and that of the group that defines it.
    Id(Identifier),
}

/// What a [`Key`] stands for.
pub enum KeyView {
    Name(Seq<char>),
    Handle(i32),
    Id(Identifier),
}

impl<'a> View for Key<'a> {
    type V = KeyView;

    open spec fn view(&self) -> KeyView {
        match *self {
            Key::Name(name) => KeyView::Name(name@),
            Key::Handle(dimid) => KeyView::Handle(dimid),
            Key::Id(id) => KeyView::Id(id),
        }
    }
}

/// True when the dimension is one that the key asks for.
pub open spec fn key_matches(d: DimensionView, key: KeyView) -> bool {
    match key {
        KeyView::Name(name) => d.name == name,
        KeyView::Handle(dimid) => d.id.dimid == dimid,
        KeyView::Id(id) => d.id == id,
    }
}

/// Position of the first dimension, at or after `from`, that the key asks
/// for; the number of dimensions if there is none.
pub open spec fn key_from(dims: Seq<DimensionView>, key: KeyView, from: int) -> int
    decreases dims.len() - from,
{
    if from < 0 || from >= dims.len() {
        dims.len() as int
    } else if key_matches(dims[from], key) {
        from
    } else {
        key_from(dims, key, from + 1)
    }
}

/// Position of the first dimension that the key asks for; the number of
/// dimensions if there is none.
pub open spec fn key_index(dims: Seq<DimensionView>, key: KeyView) -> int {
    key_from(dims, key, 0)
}

/// The first of `dims` that the key asks for, if there is one.
pub open spec fn resolve_in(dims: Seq<DimensionView>, key: KeyView) -> Option<DimensionView> {
    let at = key_index(dims, key);
    if 0 <= at < dims.len() {
        Some(dims[at])
    } else {
        None
    }
}

/// `key_from` finds the first match at or after `from`.
pub proof fn lemma_key_from(dims: Seq<DimensionView>, key: KeyView, from: int)
    requires
        0 <= from <= dims.len(),
    ensures
        from <= key_from(dims, key, from) <= dims.len(),
        forall|i: int| from <= i < key_from(dims, key, from) ==> !key_matches(dims[i], key),
        key_from(dims, key, from) < dims.len() ==> key_matches(
            dims[key_from(dims, key, from)],
            key,
        ),
    decreases dims.len() - from,
{
    if from < dims.len() && !key_matches(dims[from], key) {
        lemma_key_from(dims, key, from + 1);
    }
}

/// `key_index` is within the dimensions or at their end; before it no
/// dimension matches, and at it the dimension matches unless it is the end.
pub proof fn lemma_key_index(dims: Seq<DimensionView>, key: KeyView)
    ensures
        0 <= key_index(dims, key) <= dims.len(),
        forall|i: int| 0 <= i < key_index(dims, key) ==> !key_matches(dims[i], key),
        key_index(dims, key) < dims.len() ==> key_matches(dims[key_index(dims, key)], key),
{
    lemma_key_from(dims, key, 0);
}

/// A position that matches, with no match before it, is the `key_index`.
pub proof fn lemma_key_index_is(dims: Seq<DimensionView>, key: KeyView, pos: int)
    requires
        0 <= pos <= dims.len(),
        forall|i: int| 0 <= i < pos ==> !key_matches(dims[i], key),
        pos < dims.len() ==> key_matches(dims[pos], key),
    ensures
        key_index(dims, key) == pos,
{
    lemma_key_from(dims, key, 0);
}

/// Looking a key up in two runs of dimensions, one after the other, finds
/// the first match of the first run, or else the first match of the second.
pub proof fn lemma_resolve_in_concat(
    first: Seq<DimensionView>,
    second: Seq<DimensionView>,
    key: KeyView,
)
    ensures
        resolve_in(first + second, key) == if resolve_in(first, key).is_some() {
            resolve_in(first, key)
        } else {
            resolve_in(second, key)
        },
{
    lemma_key_index(first, key);
    lemma_key_index(second, key);
    let both = first + second;
    let a = key_index(first, key);
    let b = key_index(second, key);
    if a < first.len() {
        assert forall|i: int| 0 <= i < a implies !key_matches(both[i], key) by {
            assert(both[i] == first[i]);
        }
        assert(both[a] == first[a]);
        lemma_key_index_is(both, key, a);
    } else {
        assert forall|i: int| 0 <= i < first.len() + b implies !key_matches(both[i], key) by {
            if i < first.len() {
                assert(both[i] == first[i]);
            } else {
                assert(both[i] == second[i - first.len()]);
            }
        }
        if b < second.len() {
            assert(both[first.len() + b] == second[b]);
        }
        lemma_key_index_is(both, key, first.len() + b);
    }
}

/// What is found in a run of dimensions is one of them, and matches the key.
pub proof fn lemma_resolve_in_found(dims: Seq<DimensionView>, key: KeyView)
    ensures
        resolve_in(dims, key).is_some() ==> dims.contains(resolve_in(dims, key).unwrap())
            && key_matches(resolve_in(dims, key).unwrap(), key),
        resolve_in(dims, key).is_none() ==> forall|i: int|
            0 <= i < dims.len() ==> !key_matches(#[trigger] dims[i], key),
{
    lemma_key_index(dims, key);
}

/// Tells whether `wanted` is among `ids`.
pub fn contains_id(ids: &Vec<i32>, wanted: i32) -> (found: bool)
    ensures
        found == ids@.contains(wanted),
{
    let mut i: usize = 0;
    while i < ids.len()
        invariant
            i <= ids@.len(),
            forall|k: int| 0 <= k < i ==> ids@[k] != wanted,
        decreases ids@.len() - i,
    {
        if ids[i] == wanted {
            return true;
        }
        i += 1;
    }
    false
}

impl Dimension {
    /// A dimension of the group `ncid` as it stands after it was defined
    /// with the length `len`, where zero asks for a dimension that grows.
    pub fn new(name: String, len: usize, ncid: i32, dimid: i32) -> (d: Dimension)
        ensures
            d@ == (DimensionView {
                name: name@,
                len: length_of(len),
                id: Identifier { ncid, dimid },
            }),
            dimension_wf(d@),
    {
        let len = if len == 0 {
            None
        } else {
            Some(len)
        };
        Dimension { name, len, id: Identifier { ncid, dimid } }
    }

    /// Builds a dimension of the group `ncid` from the engine's record and
    /// the identifiers that the engine lists as unlimited in that group.
    pub fn from_raw(ncid: i32, raw: &RawDimension, unlimited: &Vec<i32>) -> (d: Dimension)
        ensures
            d@ == dimension_of(ncid, *raw, unlimited@),
            dimension_wf(d@),
    {
        let name = name_from_buffer(raw.name.as_slice());
        let len = if contains_id(unlimited, raw.dimid) || raw.len == 0 {
            None
        } else {
            Some(raw.len)
        };
        Dimension { name, len, id: Identifier { ncid, dimid: raw.dimid } }
    }

    /// Get current length of this dimension.
    ///
    /// The length of a dimension that grows changes as variables are
    /// written, so it is asked of the engine each time: `status` and
    /// `answer` are what the engine gave for the identifier of this
    /// dimension. Where the engine failed, so does this, with the error
    /// that classifies the status: a handle that the engine does not know
    /// is [`Error::NotFound`]. Neither is read for a fixed dimension.
    pub fn len(&self, status: i32, answer: usize) -> (r: Result<usize, Error>)
        ensures
            r == current_len(self@, status, answer),
            match self@.len {
                Some(n) => r == Ok::<usize, Error>(n),
                None => (status == NC_NOERR ==> r == Ok::<usize, Error>(answer)) && (status
                    != NC_NOERR ==> r == Err::<usize, Error>(error_of_status(status))),
            },
    {
        match self.len {
            Some(n) => Ok(n),
            None => match checked(status) {
                Ok(()) => Ok(answer),
                Err(e) => Err(e),
            },
        }
    }

    /// What is to be asked of the engine before the length of this
    /// dimension can be told: nothing for a fixed dimension, and for a
    /// dimension that grows its current length.
    pub fn length_request(&self) -> (r: Option<Request>)
        ensures
            match self@.len {
                Some(_) => r.is_none(),
                None => r.is_some() && r.unwrap()@ == (RequestView::InquireDimensionLength {
                    ncid: self@.id.ncid,
                    dimid: self@.id.dimid,
                }),
            },
    {
        match self.len {
            Some(_) => None,
            None => Some(
                Request::InquireDimensionLength { ncid: self.id.ncid, dimid: self.id.dimid },
            ),
        }
    }

    /// The length of a fixed dimension; `None` for a dimension that grows,
    /// whose length the engine has to be asked for.
    pub fn fixed_len(&self) -> (n: Option<usize>)
        ensures
            n == self@.len,
    {
        self.len
    }

    /// Checks whether the dimension is growable
    pub fn is_unlimited(&self) -> (r: bool)
        ensures
            r == self@.len.is_none(),
    {
        self.len.is_none()
    }

    /// Gets the name of the dimension
    pub fn name(&self) -> (r: String)
        ensures
            r@ == self@.name,
    {
        self.name.clone()
    }

    /// Grabs the unique identifier for this dimension, which
    /// can be used in `add_variable_from_identifiers`
    pub fn identifier(&self) -> (r: Identifier)
        ensures
            r == self@.id,
    {
        self.id
    }
}

/// Builds the dimensions of the group `ncid` from the engine's records, in
/// the engine's order.
pub fn get_group_dimensions(ncid: i32, raw: &Vec<RawDimension>, unlimited: &Vec<i32>) -> (r: Vec<
    Dimension,
>)
    ensures
        dimension_views(r@) == dimensions_of(ncid, raw@, unlimited@),
        forall|i: int| 0 <= i < r@.len() ==> dimension_wf(#[trigger] r@[i]@),
{
    let mut dimensions: Vec<Dimension> = Vec::new();
    let mut i: usize = 0;
    while i < raw.len()
        invariant
            i <= raw@.len(),
            dimensions@.len() == i,
            forall|k: int|
                0 <= k < i ==> (#[trigger] dimensions@[k])@ == dimension_of(
                    ncid,
                    raw@[k],
                    unlimited@,
                ),
            forall|k: int| 0 <= k < i ==> dimension_wf(#[trigger] dimensions@[k]@),
        decreases raw@.len() - i,
    {
        dimensions.push(Dimension::from_raw(ncid, &raw[i], unlimited));
        i += 1;
    }
    assert(dimension_views(dimensions@) =~= dimensions_of(ncid, raw@, unlimited@));
    dimensions
}

impl<'a> Key<'a> {
    /// Tells whether a dimension is one that the key asks for.
    pub fn matches(&self, d: &Dimension) -> (r: bool)
        ensures
            r == key_matches(d@, self@),
    {
        match self {
            Key::Name(name) => d.name == **name,
            Key::Handle(dimid) => d.id.dimid == *dimid,
            Key::Id(id) => d.id.ncid == id.ncid && d.id.dimid == id.dimid,
        }
    }
}

/// Finds the first dimension that the key asks for: its position, or `None`
/// if there is no such dimension.
pub fn position_of_key(dims: &Vec<Dimension>, key: &Key<'_>) -> (r: Option<usize>)
    ensures
        match r {
            Some(at) => at < dims@.len() && at == key_index(dimension_views(dims@), key@)
                && resolve_in(dimension_views(dims@), key@) == Some(dims@[at as int]@),
            None => key_index(dimension_views(dims@), key@) == dims@.len() && resolve_in(
                dimension_views(dims@),
                key@,
            ).is_none(),
        },
{
    let mut i: usize = 0;
    while i < dims.len()
        invariant
            i <= dims@.len(),
            forall|k: int| 0 <= k < i ==> !key_matches(dimension_views(dims@)[k], key@),
        decreases dims@.len() - i,
    {
        if key.matches(&dims[i]) {
            proof {
                lemma_key_index_is(dimension_views(dims@), key@, i as int);
            }
            return Some(i);
        }
        i += 1;
    }
    proof {
        lemma_key_index_is(dimension_views(dims@), key@, i as int);
    }
    None
}

/// Looks a dimension up by its name from the group at `g`: among the
/// dimensions of that group first, then among those of its parent, and so
/// on up to the root.
///
/// A name that the engine could not be asked about is refused with
/// [`Error::InvalidName`]. That no dimension of the name is seen is no
/// error.
pub(crate) fn dimension_from_name<'a>(nodes: &'a Vec<GroupData>, g: usize, name: &str) -> (r:
    Result<Option<&'a Dimension>, Error>)
    requires
        tree_wf(group_views(nodes@)),
        g < nodes@.len(),
    ensures
        !valid_name(name@) ==> r.is_err() && r.unwrap_err() == Error::InvalidName,
        valid_name(name@) ==> r.is_ok() && ({
            let found = resolve_in(
                scope_dims(group_views(nodes@), g as int),
                KeyView::Name(name@),
            );
            match r.unwrap() {
                Some(d) => found == Some(d@),
                None => found.is_none(),
            }
        }),
{
    if !is_valid_name(name) {
        return Err(Error::InvalidName);
    }
    let wanted = name.to_owned();
    let key = Key::Name(&wanted);
    Ok(resolve_up(nodes, g, &key))
}

/// Why a dimension of the given name can not be defined in the group at
/// `g`, if it can not: the name is one that the engine could not be asked
/// about, or the group already defines a dimension of that name.
pub open spec fn dimension_refused(groups: Seq<GroupView>, g: int, name: Seq<char>) -> Option<
    Error,
> {
    if !valid_name(name) {
        Some(Error::InvalidName)
    } else if name_index(dimension_names(groups[g].dimensions), name)
        < groups[g].dimensions.len() {
        Some(Error::AlreadyExists)
    } else {
        None
    }
}

/// What comes of defining a dimension in the group at `g`, given the
/// engine's answer: the dimension, or the reason why there is none.
pub open spec fn dimension_defined(
    groups: Seq<GroupView>,
    g: int,
    name: Seq<char>,
    len: usize,
    status: i32,
    dimid: i32,
) -> Result<DimensionView, Error> {
    if dimension_refused(groups, g, name).is_some() {
        Err(dimension_refused(groups, g, name).unwrap())
    } else if status != NC_NOERR {
        Err(error_of_status(status))
    } else {
        Ok(
            DimensionView {
                name,
                len: length_of(len),
                id: Identifier { ncid: groups[g].ncid, dimid },
            },
        )
    }
}

/// The groups after the dimension `d` was put at the end of those of the
/// group at `g`.
pub open spec fn with_dimension(groups: Seq<GroupView>, g: int, d: DimensionView) -> Seq<
    GroupView,
> {
    groups.update(g, GroupView { dimensions: groups[g].dimensions.push(d), ..groups[g] })
}

/// Looks a dimension up by its name among those that one group defines:
/// the first of that name, or `None` if the group defines none of that
/// name. What the ancestors of the group define is not looked at.
pub fn from_name<'a>(dims: &'a Vec<Dimension>, name: &str) -> (r: Result<
    Option<&'a Dimension>,
    Error,
>)
    ensures
        !valid_name(name@) ==> r.is_err() && r.unwrap_err() == Error::InvalidName,
        valid_name(name@) ==> r.is_ok() && ({
            let at = name_index(dimension_names(dimension_views(dims@)), name@);
            match r.unwrap() {
                Some(d) => at < dims@.len() && d@ == dims@[at]@,
                None => at == dims@.len(),
            }
        }),
{
    if !is_valid_name(name) {
        return Err(Error::InvalidName);
    }
    assert(names_of(dims@) =~= dimension_names(dimension_views(dims@)));
    match position_of(dims, name) {
        Some(at) => Ok(Some(&dims[at])),
        None => Ok(None),
    }
}

/// The dimensions that the group at `g` defines, in the order of the
/// engine.
pub(crate) fn dimensions_from_location(nodes: &Vec<GroupData>, g: usize) -> (r: &Vec<Dimension>)
    requires
        g < nodes@.len(),
    ensures
        dimension_views(r@) == group_views(nodes@)[g as int].dimensions,
{
    nodes[g].dimensions()
}

/// Tells why a dimension of the given name can not be defined in the group
/// at `g`, if it can not.
pub(crate) fn check_dimension(nodes: &Vec<GroupData>, g: usize, name: &str) -> (r: Result<
    (),
    Error,
>)
    requires
        g < nodes@.len(),
    ensures
        match dimension_refused(group_views(nodes@), g as int, name@) {
            Some(e) => r.is_err() && r.unwrap_err() == e,
            None => r.is_ok(),
        },
{
    match from_name(dimensions_from_location(nodes, g), name) {
        Ok(Some(_)) => Err(Error::AlreadyExists),
        Ok(None) => Ok(()),
        Err(e) => Err(e),
    }
}

/// What is handed to the engine to define a dimension in the group at `g`.
///
/// Nothing is to be asked of the engine where the name is not acceptable,
/// or is taken in the group.
pub(crate) fn dimension_request(file: &File, g: usize, name: &str, len: usize) -> (r: Result<
    Request,
    Error,
>)
    requires
        file.wf(),
        g < file@.groups.len(),
    ensures
        match dimension_refused(file@.groups, g as int, name@) {
            Some(e) => r.is_err() && r.unwrap_err() == e,
            None => r.is_ok() && r.unwrap()@ == (RequestView::DefineDimension {
                ncid: file@.groups[g as int].ncid,
                name: padded(encode_utf8(name@)),
                len,
            }),
        },
{
    match check_dimension(file.nodes(), g, name) {
        Ok(()) => {},
        Err(e) => {
            return Err(e);
        },
    }
    match short_name_to_bytes(name) {
        Ok(bytes) => Ok(
            Request::DefineDimension { ncid: file.nodes()[g].ncid(), name: bytes, len },
        ),
        Err(e) => Err(e),
    }
}

/// Records a dimension that the engine was asked to define in the group at
/// `g`, with the given name and length. A length of zero gives a dimension
/// that grows. `status` and `dimid` are the engine's answer.
///
/// The dimension is put at the end of those of the group, and returned.
/// Where the name is not acceptable or is taken in the group, or the engine
/// failed, the container is left as it was.
pub(crate) fn add_dimension_at(
    file: &mut File,
    g: usize,
    name: &str,
    len: usize,
    status: i32,
    dimid: i32,
) -> (r: Result<Dimension, Error>)
    requires
        old(file).wf(),
        g < old(file)@.groups.len(),
    ensures
        final(file).wf(),
        match dimension_defined(old(file)@.groups, g as int, name@, len, status, dimid) {
            Ok(d) => {
                &&& r.is_ok()
                &&& r.unwrap()@ == d
                &&& final(file)@ == with_groups(
                    old(file)@,
                    with_dimension(old(file)@.groups, g as int, d),
                )
            },
            Err(e) => r.is_err() && r.unwrap_err() == e && final(file)@ == old(file)@,
        },
{
    match check_dimension(file.nodes(), g, name) {
        Ok(()) => {},
        Err(e) => {
            return Err(e);
        },
    }
    match checked(status) {
        Ok(()) => {},
        Err(e) => {
            return Err(e);
        },
    }
    let ncid = file.nodes()[g].ncid();
    let d = Dimension::new(name.to_owned(), len, ncid, dimid);
    let copy = d.clone();
    file.push_dimension(g, d);
    Ok(copy)
}

} // verus!
