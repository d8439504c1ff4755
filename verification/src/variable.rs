//! Variables: named, typed arrays shaped by an ordered list of dimensions.

use vstd::prelude::*;
use vstd::utf8::encode_utf8;
use crate::attribute::{
    add_variable_attribute_at, attribute_names, attribute_refused, attribute_request,
    attribute_views, attribute_with, value_len, value_xtype, with_variable_attribute,
    AttrValue, Attribute, AttributeView,
};
use crate::dimension::{
    dimension_views, lemma_resolve_in_found, resolve_in, Dimension, DimensionView, Identifier,
    Key, KeyView,
};
use crate::engine::{Request, RequestView};
use crate::error::{checked, error_of_status, Error, NC_NOERR};
use crate::file::{with_groups, File, FileView};
use crate::tree::{group_views, resolve_up, scope_dims, tree_wf, GroupData, GroupView};
use crate::types::{builtin_of_id, Type};
use crate::utils::{
    is_valid_name, name_index, names_of, padded, position_of, short_name_to_bytes, valid_name,
    Named,
};

verus! {

/// A variable of a group.
#[derive(Debug, PartialEq, Eq)]
pub struct Variable {
    name: String,
    ncid: i32,
    varid: i32,
    vartype: i32,
    dimensions: Vec<Dimension>,
    attributes: Vec<Attribute>,
}

/// What a [`Variable`] stands for.
pub struct VariableView {
    /// Name of the variable.
    pub name: Seq<char>,
    /// Handle of the group that the variable is in.
    pub ncid: i32,
    /// Handle of the variable.
    pub varid: i32,
    /// Type identifier of the values.
    pub vartype: i32,
    /// The dimensions, in the order of the shape.
    pub dimensions: Seq<DimensionView>,
    /// The attributes, in the order of the engine.
    pub attributes: Seq<AttributeView>,
}

impl View for Variable {
    type V = VariableView;

    closed spec fn view(&self) -> VariableView {
        VariableView {
            name: self.name@,
            ncid: self.ncid,
            varid: self.varid,
            vartype: self.vartype,
            dimensions: dimension_views(self.dimensions@),
            attributes: attribute_views(self.attributes@),
        }
    }
}

impl Named for Variable {
    open spec fn spec_name(&self) -> Seq<char> {
        self@.name
    }

    fn name_ref(&self) -> (r: &String) {
        &self.name
    }
}

/// The views of a sequence of variables, in order.
pub open spec fn variable_views(vars: Seq<Variable>) -> Seq<VariableView> {
    vars.map_values(|v: Variable| v@)
}

/// The names of a sequence of variables, in order.
pub open spec fn variable_names(vars: Seq<VariableView>) -> Seq<Seq<char>> {
    vars.map_values(|v: VariableView| v.name)
}

/// Copies a list of dimensions.
fn copy_dimensions(dims: &Vec<Dimension>) -> (r: Vec<Dimension>)
    ensures
        dimension_views(r@) == dimension_views(dims@),
{
    let mut copy: Vec<Dimension> = Vec::new();
    let mut i: usize = 0;
    while i < dims.len()
        invariant
            i <= dims@.len(),
            copy@.len() == i,
            forall|k: int| 0 <= k < i ==> copy@[k]@ == dims@[k]@,
        decreases dims@.len() - i,
    {
        copy.push(dims[i].clone());
        i += 1;
    }
    assert(dimension_views(copy@) =~= dimension_views(dims@));
    copy
}

/// Copies a list of attributes.
fn copy_attributes(attrs: &Vec<Attribute>) -> (r: Vec<Attribute>)
    ensures
        attribute_views(r@) == attribute_views(attrs@),
{
    let mut copy: Vec<Attribute> = Vec::new();
    let mut i: usize = 0;
    while i < attrs.len()
        invariant
            i <= attrs@.len(),
            copy@.len() == i,
            forall|k: int| 0 <= k < i ==> copy@[k]@ == attrs@[k]@,
        decreases attrs@.len() - i,
    {
        copy.push(attrs[i].clone());
        i += 1;
    }
    assert(attribute_views(copy@) =~= attribute_views(attrs@));
    copy
}

impl Clone for Variable {
    fn clone(&self) -> (r: Variable)
        ensures
            r@ == self@,
    {
        Variable {
            name: self.name.clone(),
            ncid: self.ncid,
            varid: self.varid,
            vartype: self.vartype,
            dimensions: copy_dimensions(&self.dimensions),
            attributes: copy_attributes(&self.attributes),
        }
    }
}

impl Variable {
    /// A variable of the group `ncid`.
    pub fn new(
        name: String,
        ncid: i32,
        varid: i32,
        vartype: i32,
        dimensions: Vec<Dimension>,
        attributes: Vec<Attribute>,
    ) -> (v: Variable)
        ensures
            v@ == (VariableView {
                name: name@,
                ncid,
                varid,
                vartype,
                dimensions: dimension_views(dimensions@),
                attributes: attribute_views(attributes@),
            }),
    {
        Variable { name, ncid, varid, vartype, dimensions, attributes }
    }

    /// Name of the variable.
    pub fn name(&self) -> (r: String)
        ensures
            r@ == self@.name,
    {
        self.name.clone()
    }

    /// Handle of the variable.
    pub fn varid(&self) -> (r: i32)
        ensures
            r == self@.varid,
    {
        self.varid
    }

    /// Type identifier of the values, as the engine names it.
    pub fn type_id(&self) -> (r: i32)
        ensures
            r == self@.vartype,
    {
        self.vartype
    }

    /// The type of the values, where it is a built-in type. A user-defined
    /// type is refused with [`Error::Unsupported`].
    pub fn vartype(&self) -> (r: Result<Type, Error>)
        ensures
            builtin_of_id(self@.vartype).is_some() ==> r.is_ok() && r.unwrap()@ == builtin_of_id(
                self@.vartype,
            ).unwrap(),
            builtin_of_id(self@.vartype).is_none() ==> r.is_err() && r.unwrap_err()
                == Error::Unsupported,
    {
        Type::from_id(self.vartype)
    }

    /// The dimensions of the variable, in the order of its shape.
    pub fn dimensions(&self) -> (r: &Vec<Dimension>)
        ensures
            dimension_views(r@) == self@.dimensions,
    {
        &self.dimensions
    }

    /// The attributes of the variable, in the order of the engine.
    pub fn attributes(&self) -> (r: &Vec<Attribute>)
        ensures
            attribute_views(r@) == self@.attributes,
    {
        &self.attributes
    }

    /// Get a single attribute: the first of the given name, or `None` if the
    /// variable has no attribute of that name. A name that the engine could
    /// not be asked about is refused with [`Error::InvalidName`].
    pub fn attribute(&self, name: &str) -> (r: Result<Option<&Attribute>, Error>)
        ensures
            !valid_name(name@) ==> r.is_err() && r.unwrap_err() == Error::InvalidName,
            valid_name(name@) ==> r.is_ok() && ({
                let at = name_index(attribute_names(self@.attributes), name@);
                match r.unwrap() {
                    Some(a) => at < self@.attributes.len() && a@ == self@.attributes[at],
                    None => at == self@.attributes.len(),
                }
            }),
    {
        if !is_valid_name(name) {
            return Err(Error::InvalidName);
        }
        assert(names_of(self.attributes@) =~= attribute_names(self@.attributes));
        match position_of(&self.attributes, name) {
            Some(at) => Ok(Some(&self.attributes[at])),
            None => Ok(None),
        }
    }

    /// Puts an attribute on the variable: in the place of the first
    /// attribute of the same name, or at the end if there is none.
    pub(crate) fn put_attribute(&mut self, attr: Attribute) -> (at: usize)
        ensures
            final(self)@ == (VariableView {
                attributes: crate::attribute::put_attribute(old(self)@.attributes, attr@),
                ..old(self)@
            }),
            at == name_index(attribute_names(old(self)@.attributes), attr@.name),
            at < final(self)@.attributes.len(),
            final(self)@.attributes[at as int] == attr@,
    {
        crate::attribute::put(&mut self.attributes, attr)
    }
}

/// The texts of a sequence of string slices, in order.
pub open spec fn str_views(names: Seq<&str>) -> Seq<Seq<char>> {
    names.map_values(|s: &str| s@)
}

/// Why a dimension can not be taken by the given name from the scope, if
/// it can not: the name is one that the engine could not be asked about,
/// or no dimension of the scope has it.
pub open spec fn name_error(scope: Seq<DimensionView>, name: Seq<char>) -> Option<Error> {
    if !valid_name(name) {
        Some(Error::InvalidName)
    } else if resolve_in(scope, KeyView::Name(name)).is_none() {
        Some(Error::NotFound)
    } else {
        None
    }
}

/// The error of the first name, at or after `from`, by which no dimension
/// can be taken from the scope.
pub open spec fn names_error_from(scope: Seq<DimensionView>, names: Seq<Seq<char>>, from: int)
    -> Option<Error>
    decreases names.len() - from,
{
    if from < 0 || from >= names.len() {
        None
    } else if name_error(scope, names[from]).is_some() {
        name_error(scope, names[from])
    } else {
        names_error_from(scope, names, from + 1)
    }
}

/// The error of the first name by which no dimension can be taken from the
/// scope; `None` if there is a dimension for each.
pub open spec fn names_error(scope: Seq<DimensionView>, names: Seq<Seq<char>>) -> Option<Error> {
    names_error_from(scope, names, 0)
}

/// The dimensions that the names stand for in the scope, in order.
pub open spec fn dims_of_names(scope: Seq<DimensionView>, names: Seq<Seq<char>>) -> Seq<
    DimensionView,
> {
    names.map_values(|name: Seq<char>| resolve_in(scope, KeyView::Name(name)).unwrap())
}

/// True when every identifier is that of a dimension of the scope.
pub open spec fn ids_resolvable(scope: Seq<DimensionView>, ids: Seq<Identifier>) -> bool {
    forall|k: int|
        0 <= k < ids.len() ==> resolve_in(scope, KeyView::Id(#[trigger] ids[k])).is_some()
}

/// The dimensions that the identifiers stand for in the scope, in order.
pub open spec fn dims_of_ids(scope: Seq<DimensionView>, ids: Seq<Identifier>) -> Seq<
    DimensionView,
> {
    ids.map_values(|id: Identifier| resolve_in(scope, KeyView::Id(id)).unwrap())
}

/// The handles of a sequence of dimensions, in order.
pub open spec fn handles_of(dims: Seq<DimensionView>) -> Seq<i32> {
    dims.map_values(|d: DimensionView| d.id.dimid)
}

/// Why a variable of the given name can not be defined in the group at
/// `g`, if it can not: the name is one that the engine could not be asked
/// about, or the group already has a variable of that name.
pub open spec fn variable_refused(groups: Seq<GroupView>, g: int, name: Seq<char>) -> Option<
    Error,
> {
    if !valid_name(name) {
        Some(Error::InvalidName)
    } else if name_index(variable_names(groups[g].variables), name) < groups[g].variables.len() {
        Some(Error::AlreadyExists)
    } else {
        None
    }
}

/// What comes of defining a variable of the given dimensions in the group
/// at `g`, given the engine's answer: the variable, or the reason why
/// there is none.
pub open spec fn variable_defined(
    groups: Seq<GroupView>,
    g: int,
    name: Seq<char>,
    xtype: i32,
    dims: Seq<DimensionView>,
    status: i32,
    varid: i32,
) -> Result<VariableView, Error> {
    if variable_refused(groups, g, name).is_some() {
        Err(variable_refused(groups, g, name).unwrap())
    } else if status != NC_NOERR {
        Err(error_of_status(status))
    } else {
        Ok(
            VariableView {
                name,
                ncid: groups[g].ncid,
                varid,
                vartype: xtype,
                dimensions: dims,
                attributes: Seq::empty(),
            },
        )
    }
}

/// What comes of defining a variable in the group at `g` whose dimensions
/// are given by name: each name is looked up among the dimensions that the
/// group sees, and a name by which none is found is an error before the
/// engine's answer is read.
pub open spec fn variable_from_names(
    groups: Seq<GroupView>,
    g: int,
    name: Seq<char>,
    xtype: i32,
    dims: Seq<Seq<char>>,
    status: i32,
    varid: i32,
) -> Result<VariableView, Error> {
    let scope = scope_dims(groups, g);
    if variable_refused(groups, g, name).is_some() {
        Err(variable_refused(groups, g, name).unwrap())
    } else if names_error(scope, dims).is_some() {
        Err(names_error(scope, dims).unwrap())
    } else {
        variable_defined(groups, g, name, xtype, dims_of_names(scope, dims), status, varid)
    }
}

/// What comes of defining a variable in the group at `g` whose dimensions
/// are given by identifier: an identifier of no dimension that the group
/// sees is an error before the engine's answer is read.
pub open spec fn variable_from_ids(
    groups: Seq<GroupView>,
    g: int,
    name: Seq<char>,
    xtype: i32,
    ids: Seq<Identifier>,
    status: i32,
    varid: i32,
) -> Result<VariableView, Error> {
    let scope = scope_dims(groups, g);
    if variable_refused(groups, g, name).is_some() {
        Err(variable_refused(groups, g, name).unwrap())
    } else if !ids_resolvable(scope, ids) {
        Err(Error::NotFound)
    } else {
        variable_defined(groups, g, name, xtype, dims_of_ids(scope, ids), status, varid)
    }
}

/// What is to be asked of the engine to define a variable in the group at
/// `g` whose dimensions are given by name, or why nothing is to be asked.
pub open spec fn variable_asked(
    groups: Seq<GroupView>,
    g: int,
    name: Seq<char>,
    xtype: i32,
    dims: Seq<Seq<char>>,
) -> Result<RequestView, Error> {
    let scope = scope_dims(groups, g);
    if variable_refused(groups, g, name).is_some() {
        Err(variable_refused(groups, g, name).unwrap())
    } else if names_error(scope, dims).is_some() {
        Err(names_error(scope, dims).unwrap())
    } else {
        Ok(
            RequestView::DefineVariable {
                ncid: groups[g].ncid,
                name: padded(encode_utf8(name)),
                xtype,
                dimids: handles_of(dims_of_names(scope, dims)),
            },
        )
    }
}

/// What is to be asked of the engine to define a variable in the group at
/// `g` whose dimensions are given by identifier, or why nothing is to be
/// asked.
pub open spec fn variable_asked_by_ids(
    groups: Seq<GroupView>,
    g: int,
    name: Seq<char>,
    xtype: i32,
    ids: Seq<Identifier>,
) -> Result<RequestView, Error> {
    let scope = scope_dims(groups, g);
    if variable_refused(groups, g, name).is_some() {
        Err(variable_refused(groups, g, name).unwrap())
    } else if !ids_resolvable(scope, ids) {
        Err(Error::NotFound)
    } else {
        Ok(
            RequestView::DefineVariable {
                ncid: groups[g].ncid,
                name: padded(encode_utf8(name)),
                xtype,
                dimids: handles_of(dims_of_ids(scope, ids)),
            },
        )
    }
}

/// The groups after the variable `v` was put at the end of those of the
/// group at `g`.
pub open spec fn with_variable(groups: Seq<GroupView>, g: int, v: VariableView) -> Seq<GroupView> {
    groups.update(g, GroupView { variables: groups[g].variables.push(v), ..groups[g] })
}

/// Tells why a variable of the given name can not be defined in the group
/// at `g`, if it can not.
pub(crate) fn check_variable(nodes: &Vec<GroupData>, g: usize, name: &str) -> (r: Result<
    (),
    Error,
>)
    requires
        g < nodes@.len(),
    ensures
        match variable_refused(group_views(nodes@), g as int, name@) {
            Some(e) => r.is_err() && r.unwrap_err() == e,
            None => r.is_ok(),
        },
{
    if !is_valid_name(name) {
        return Err(Error::InvalidName);
    }
    let variables = nodes[g].variables();
    assert(names_of(variables@) =~= variable_names(variable_views(variables@)));
    match position_of(variables, name) {
        Some(_) => Err(Error::AlreadyExists),
        None => Ok(()),
    }
}

/// Takes the dimensions of the given names from what the group at `g`
/// sees: each among the dimensions of the group first, then among those of
/// its ancestors.
///
/// Fails at the first name by which none is found: with
/// [`Error::InvalidName`] if the engine could not be asked about the name,
/// else with [`Error::NotFound`].
pub(crate) fn resolve_names(nodes: &Vec<GroupData>, g: usize, names: &[&str]) -> (r: Result<
    Vec<Dimension>,
    Error,
>)
    requires
        tree_wf(group_views(nodes@)),
        g < nodes@.len(),
    ensures
        ({
            let scope = scope_dims(group_views(nodes@), g as int);
            match names_error(scope, str_views(names@)) {
                None => {
                    &&& r.is_ok()
                    &&& dimension_views(r.unwrap()@) == dims_of_names(scope, str_views(names@))
                    &&& forall|k: int|
                        0 <= k < r.unwrap()@.len() ==> scope.contains(
                            #[trigger] dimension_views(r.unwrap()@)[k],
                        )
                },
                Some(e) => r.is_err() && r.unwrap_err() == e,
            }
        }),
{
    let ghost scope = scope_dims(group_views(nodes@), g as int);
    let ghost wanted = str_views(names@);
    let mut dimensions: Vec<Dimension> = Vec::new();
    let mut i: usize = 0;
    while i < names.len()
        invariant
            i <= names@.len(),
            dimensions@.len() == i,
            tree_wf(group_views(nodes@)),
            g < nodes@.len(),
            scope == scope_dims(group_views(nodes@), g as int),
            wanted == str_views(names@),
            names_error(scope, wanted) == names_error_from(scope, wanted, i as int),
            forall|k: int|
                0 <= k < i ==> (#[trigger] dimensions@[k])@ == resolve_in(
                    scope,
                    KeyView::Name(wanted[k]),
                ).unwrap() && scope.contains(dimensions@[k]@),
        decreases names@.len() - i,
    {
        let name = names[i];
        assert(wanted[i as int] == name@);
        if !is_valid_name(name) {
            return Err(Error::InvalidName);
        }
        let owned = name.to_owned();
        let key = Key::Name(&owned);
        match resolve_up(nodes, g, &key) {
            Some(d) => {
                proof {
                    lemma_resolve_in_found(scope, key@);
                }
                dimensions.push(d.clone());
            },
            None => {
                return Err(Error::NotFound);
            },
        }
        i += 1;
    }
    assert(dimension_views(dimensions@) =~= dims_of_names(scope, wanted));
    Ok(dimensions)
}

/// Takes the dimensions of the given identifiers from what the group at
/// `g` sees.
///
/// Fails with [`Error::NotFound`] exactly when an identifier is that of no
/// dimension that the group sees.
pub(crate) fn resolve_ids(nodes: &Vec<GroupData>, g: usize, ids: &[Identifier]) -> (r: Result<
    Vec<Dimension>,
    Error,
>)
    requires
        tree_wf(group_views(nodes@)),
        g < nodes@.len(),
    ensures
        ({
            let scope = scope_dims(group_views(nodes@), g as int);
            if ids_resolvable(scope, ids@) {
                &&& r.is_ok()
                &&& dimension_views(r.unwrap()@) == dims_of_ids(scope, ids@)
                &&& forall|k: int|
                    0 <= k < r.unwrap()@.len() ==> scope.contains(
                        #[trigger] dimension_views(r.unwrap()@)[k],
                    )
            } else {
                r.is_err() && r.unwrap_err() == Error::NotFound
            }
        }),
{
    let ghost scope = scope_dims(group_views(nodes@), g as int);
    let mut dimensions: Vec<Dimension> = Vec::new();
    let mut i: usize = 0;
    while i < ids.len()
        invariant
            i <= ids@.len(),
            dimensions@.len() == i,
            tree_wf(group_views(nodes@)),
            g < nodes@.len(),
            scope == scope_dims(group_views(nodes@), g as int),
            forall|k: int|
                0 <= k < i ==> resolve_in(scope, KeyView::Id(#[trigger] ids@[k])).is_some(),
            forall|k: int|
                0 <= k < i ==> (#[trigger] dimensions@[k])@ == resolve_in(
                    scope,
                    KeyView::Id(ids@[k]),
                ).unwrap() && scope.contains(dimensions@[k]@),
        decreases ids@.len() - i,
    {
        let key = Key::Id(ids[i]);
        match resolve_up(nodes, g, &key) {
            Some(d) => {
                proof {
                    lemma_resolve_in_found(scope, key@);
                }
                dimensions.push(d.clone());
            },
            None => {
                return Err(Error::NotFound);
            },
        }
        i += 1;
    }
    assert(dimension_views(dimensions@) =~= dims_of_ids(scope, ids@));
    Ok(dimensions)
}

/// The handles of a list of dimensions, in order.
pub(crate) fn handles(dims: &Vec<Dimension>) -> (r: Vec<i32>)
    ensures
        r@ == handles_of(dimension_views(dims@)),
{
    let mut ids: Vec<i32> = Vec::new();
    let mut i: usize = 0;
    while i < dims.len()
        invariant
            i <= dims@.len(),
            ids@.len() == i,
            forall|k: int| 0 <= k < i ==> ids@[k] == dims@[k]@.id.dimid,
        decreases dims@.len() - i,
    {
        ids.push(dims[i].identifier().dimid);
        i += 1;
    }
    assert(ids@ =~= handles_of(dimension_views(dims@)));
    ids
}

/// What is handed to the engine to define a variable of the given
/// dimensions in the group at `g`.
pub(crate) fn variable_request(
    file: &File,
    g: usize,
    name: &str,
    xtype: i32,
    dims: &Vec<Dimension>,
) -> (r: Result<Request, Error>)
    requires
        file.wf(),
        g < file@.groups.len(),
    ensures
        match variable_refused(file@.groups, g as int, name@) {
            Some(e) => r.is_err() && r.unwrap_err() == e,
            None => r.is_ok() && r.unwrap()@ == (RequestView::DefineVariable {
                ncid: file@.groups[g as int].ncid,
                name: padded(encode_utf8(name@)),
                xtype,
                dimids: handles_of(dimension_views(dims@)),
            }),
        },
{
    match check_variable(file.nodes(), g, name) {
        Ok(()) => {},
        Err(e) => {
            return Err(e);
        },
    }
    match short_name_to_bytes(name) {
        Ok(bytes) => Ok(
            Request::DefineVariable {
                ncid: file.nodes()[g].ncid(),
                name: bytes,
                xtype,
                dimids: handles(dims),
            },
        ),
        Err(e) => Err(e),
    }
}

/// Records a variable that the engine was asked to define in the group at
/// `g`, shaped by the given dimensions. `status` and `varid` are the
/// engine's answer.
///
/// The variable is put at the end of those of the group, without
/// attributes, and where it stands is returned. Where the name is not
/// acceptable or is taken in the group, or the engine failed, the container
/// is left as it was.
pub(crate) fn add_variable_at(
    file: &mut File,
    g: usize,
    name: &str,
    xtype: i32,
    dims: Vec<Dimension>,
    status: i32,
    varid: i32,
) -> (r: Result<usize, Error>)
    requires
        old(file).wf(),
        g < old(file)@.groups.len(),
        forall|k: int|
            0 <= k < dims@.len() ==> scope_dims(old(file)@.groups, g as int).contains(
                #[trigger] dimension_views(dims@)[k],
            ),
    ensures
        final(file).wf(),
        match variable_defined(
            old(file)@.groups,
            g as int,
            name@,
            xtype,
            dimension_views(dims@),
            status,
            varid,
        ) {
            Ok(v) => {
                &&& r.is_ok()
                &&& r.unwrap() == old(file)@.groups[g as int].variables.len()
                &&& final(file)@ == with_groups(
                    old(file)@,
                    with_variable(old(file)@.groups, g as int, v),
                )
            },
            Err(e) => r.is_err() && r.unwrap_err() == e && final(file)@ == old(file)@,
        },
{
    match check_variable(file.nodes(), g, name) {
        Ok(()) => {},
        Err(e) => {
            return Err(e);
        },
    }
    match checked(status) {
        Ok(()) => {},
        Err(e) => {
            return Err(e);
        },
    }
    let ncid = file.nodes()[g].ncid();
    let at = file.nodes()[g].variables().len();
    let attributes: Vec<Attribute> = Vec::new();
    assert(attribute_views(attributes@) =~= Seq::empty());
    let v = Variable::new(name.to_owned(), ncid, varid, xtype, dims, attributes);
    file.push_variable(g, v);
    Ok(at)
}

/// Mutable access to a variable.
///
/// Like the view for writing of a group, it holds the container to itself.
#[derive(Debug)]
pub struct VariableMut<'f> {
    /// The container that the variable is in.
    pub file: &'f mut File,
    /// Where the group of the variable stands among the groups of the
    /// container.
    pub group: usize,
    /// Where the variable stands among the variables of its group.
    pub index: usize,
}

impl<'f> View for VariableMut<'f> {
    type V = VariableView;

    open spec fn view(&self) -> VariableView {
        self.file@.groups[self.group as int].variables[self.index as int]
    }
}

impl<'f> VariableMut<'f> {
    /// The container that the variable is in.
    pub open spec fn container(&self) -> FileView {
        self.file@
    }

    /// Where the group of the variable stands among the groups of the
    /// container.
    pub open spec fn group_at(&self) -> int {
        self.group as int
    }

    /// Where the variable stands among the variables of its group.
    pub open spec fn at(&self) -> int {
        self.index as int
    }

    /// The view is of a variable of a well-formed container.
    pub open spec fn wf(&self) -> bool {
        &&& self.file.wf()
        &&& self.group < self.file@.groups.len()
        &&& self.index < self.file@.groups[self.group as int].variables.len()
    }

    /// The variable, for reading.
    pub fn as_variable(&self) -> (v: &Variable)
        requires
            self.wf(),
        ensures
            v@ == self@,
    {
        &self.file.nodes()[self.group].variables()[self.index]
    }

    /// What is handed to the engine to put a value under a name on this
    /// variable.
    pub fn attribute_request(&self, name: &str, value: &AttrValue) -> (r: Result<Request, Error>)
        requires
            self.wf(),
        ensures
            !valid_name(name@) ==> r.is_err() && r.unwrap_err() == Error::InvalidName,
            valid_name(name@) ==> r.is_ok() && r.unwrap()@ == (RequestView::PutAttribute {
                ncid: self.container().groups[self.group_at()].ncid,
                varid: self@.varid,
                name: padded(encode_utf8(name@)),
                xtype: value_xtype(value@),
                len: value_len(value@) as usize,
            }),
    {
        let group = &self.file.nodes()[self.group];
        attribute_request(group.ncid(), group.variables()[self.index].varid(), name, value)
    }

    /// Adds an attribute to the variable.
    ///
    /// `status` is the engine's answer to the request to put the value.
    /// The attribute takes the place of the first attribute of that name
    /// of the variable, or stands at the end if there is none.
    pub fn add_attribute(&mut self, name: &str, value: AttrValue, status: i32) -> (r: Result<
        Attribute,
        Error,
    >)
        requires
            old(self).wf(),
        ensures
            final(self).wf(),
            final(self).group_at() == old(self).group_at(),
            final(self).at() == old(self).at(),
            *final(final(self).file) == *final(old(self).file),
            match attribute_refused(name@, status) {
                None => {
                    let attr = attribute_with(
                        name@,
                        old(self).container().groups[old(self).group_at()].ncid,
                        old(self)@.varid,
                        value@,
                    );
                    &&& r.is_ok()
                    &&& r.unwrap()@ == attr
                    &&& final(self).container() == with_groups(
                        old(self).container(),
                        with_variable_attribute(
                            old(self).container().groups,
                            old(self).group_at(),
                            old(self).at(),
                            attr,
                        ),
                    )
                },
                Some(e) => {
                    &&& r.is_err()
                    &&& r.unwrap_err() == e
                    &&& final(self).container() == old(self).container()
                },
            },
    {
        add_variable_attribute_at(self.file, self.group, self.index, name, value, status)
    }
}

} // verus!
