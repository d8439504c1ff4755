//! Groups, as they are seen from outside: the view for reading and the
//! view for writing.

use vstd::prelude::*;
use vstd::utf8::encode_utf8;
use crate::attribute::{
    add_attribute_at, attribute_names, attribute_refused, attribute_request, attribute_views,
    attribute_with, value_len, value_xtype, with_group_attribute, AttrValue, Attribute,
    NC_GLOBAL,
};
use crate::dimension::{
    add_dimension_at, dimension_defined, dimension_from_name, dimension_refused,
    dimension_request, dimension_views, dimensions_from_location, resolve_in, with_dimension,
    Dimension, Identifier, KeyView,
};
use crate::engine::{Request, RequestView};
use crate::error::{checked, error_of_status, Error, NC_NOERR};
use crate::file::{with_groups, File, FileView};
use crate::tree::{
    children_ok, group_views, node_ok, position, positions, scope_dims, tree_wf, GroupData,
    GroupView,
};
use crate::types::{id_of_simple, type_views, SimpleType, Type, NC_STRING};
use crate::utils::{
    is_valid_name, lemma_name_index_is, name_index, names_of, padded, position_of,
    short_name_to_bytes, valid_name,
};
use crate::variable::{
    add_variable_at, check_variable, resolve_ids, resolve_names, str_views, variable_asked,
    variable_asked_by_ids, variable_from_ids, variable_from_names, variable_names,
    variable_request, variable_views, with_variable, Variable, VariableMut, VariableView,
};

verus! {

/// The names of the subgroups of the group at `g`, in order.
pub open spec fn child_names(groups: Seq<GroupView>, g: int) -> Seq<Seq<char>> {
    groups[g].groups.map_values(|c: int| groups[c].name)
}

/// Where the subgroup of the given name stands in the list of groups, if
/// the group at `g` has a subgroup of that name: the first of that name.
pub open spec fn child_named(groups: Seq<GroupView>, g: int, name: Seq<char>) -> Option<int> {
    let at = name_index(child_names(groups, g), name);
    if 0 <= at < groups[g].groups.len() {
        Some(groups[g].groups[at])
    } else {
        None
    }
}

/// Finds the subgroup of the given name among those of the group at `g`:
/// where it stands in the list of groups, or `None` if the group has no
/// subgroup of that name.
pub(crate) fn group_from_name(nodes: &Vec<GroupData>, g: usize, name: &str) -> (r: Option<usize>)
    requires
        tree_wf(group_views(nodes@)),
        g < nodes@.len(),
    ensures
        position(r) == child_named(group_views(nodes@), g as int, name@),
        r.is_some() ==> r.unwrap() < nodes@.len(),
{
    let ghost groups = group_views(nodes@);
    let ghost names = child_names(groups, g as int);
    let wanted = name.to_owned();
    let kids = nodes[g].groups();
    assert(node_ok(groups, g as int));
    let mut k: usize = 0;
    while k < kids.len()
        invariant
            k <= kids@.len(),
            wanted@ == name@,
            groups == group_views(nodes@),
            names == child_names(groups, g as int),
            g < nodes@.len(),
            children_ok(groups, g as int),
            positions(kids@) == groups[g as int].groups,
            forall|j: int| 0 <= j < k ==> names[j] != name@,
        decreases kids@.len() - k,
    {
        let c = kids[k];
        assert(groups[g as int].groups[k as int] == c);
        assert(names[k as int] == groups[c as int].name);
        if *nodes[c].name() == wanted {
            proof {
                lemma_name_index_is(names, name@, k as int);
            }
            return Some(c);
        }
        k += 1;
    }
    proof {
        lemma_name_index_is(names, name@, k as int);
    }
    None
}

/// Main component of the container. Holds all variables, attributes, and
/// dimensions. A group can always see the parents items, but a parent can
/// not access a childs items.
///
/// This is the view for reading: it can be copied, and any number of them
/// can be held at once.
#[derive(Debug, Clone, Copy)]
pub struct Group<'f> {
    file: &'f File,
    index: usize,
}

impl<'f> View for Group<'f> {
    type V = GroupView;

    closed spec fn view(&self) -> GroupView {
        self.file@.groups[self.index as int]
    }
}

impl<'f> Group<'f> {
    /// The groups of the container that the group is in.
    pub closed spec fn tree(&self) -> Seq<GroupView> {
        self.file@.groups
    }

    /// Where the group stands among the groups of its container.
    pub closed spec fn at(&self) -> int {
        self.index as int
    }

    /// The container that the group is in.
    pub closed spec fn container(&self) -> FileView {
        self.file@
    }

    /// The view is of a group of a well-formed container.
    pub open spec fn wf(&self) -> bool {
        &&& tree_wf(self.tree())
        &&& 0 <= self.at() < self.tree().len()
        &&& self@ == self.tree()[self.at()]
        &&& self.tree() == self.container().groups
    }

    /// The view of the group at `index` of a container.
    pub(crate) fn new(file: &'f File, index: usize) -> (g: Group<'f>)
        requires
            file.wf(),
            index < file@.groups.len(),
        ensures
            g.wf(),
            g.container() == file@,
            g.at() == index,
    {
        Group { file, index }
    }

    /// Name of the current group
    pub fn name(&self) -> (r: String)
        requires
            self.wf(),
        ensures
            r@ == self@.name,
    {
        self.file.nodes()[self.index].name().clone()
    }

    /// Internal ncid of the group
    pub fn id(&self) -> (r: i32)
        requires
            self.wf(),
        ensures
            r == self@.ncid,
    {
        self.file.nodes()[self.index].ncid()
    }

    /// Get a variable from the group: the first of the given name among the
    /// variables of this group, or `None` if there is none. A name that the
    /// engine could not be asked about is refused with
    /// [`Error::InvalidName`].
    pub fn variable(&self, name: &str) -> (r: Result<Option<&'f Variable>, Error>)
        requires
            self.wf(),
        ensures
            !valid_name(name@) ==> r.is_err() && r.unwrap_err() == Error::InvalidName,
            valid_name(name@) ==> r.is_ok() && ({
                let at = name_index(variable_names(self@.variables), name@);
                match r.unwrap() {
                    Some(v) => at < self@.variables.len() && v@ == self@.variables[at],
                    None => at == self@.variables.len(),
                }
            }),
    {
        if !is_valid_name(name) {
            return Err(Error::InvalidName);
        }
        let variables = self.file.nodes()[self.index].variables();
        assert(names_of(variables@) =~= variable_names(self@.variables));
        match position_of(variables, name) {
            Some(at) => Ok(Some(&variables[at])),
            None => Ok(None),
        }
    }

    /// All variables of the group, in the order of the engine.
    pub fn variables(&self) -> (r: &'f Vec<Variable>)
        requires
            self.wf(),
        ensures
            variable_views(r@) == self@.variables,
    {
        self.file.nodes()[self.index].variables()
    }

    /// Get a single attribute: the first of the given name among the
    /// attributes of this group, or `None` if there is none.
    pub fn attribute(&self, name: &str) -> (r: Result<Option<&'f Attribute>, Error>)
        requires
            self.wf(),
        ensures
            !valid_name(name@) ==> r.is_err() && r.unwrap_err() == Error::InvalidName,
            valid_name(name@) ==> r.is_ok() && ({
                let at = name_index(attribute_names(self@.attributes), name@);
                match r.unwrap() {
                    Some(a) => at < self@.attributes.len() && a@ == self@.attributes[at],
                    None => at == self@.attributes.len(),
                }
            }),
    {
        if !is_valid_name(name) {
            return Err(Error::InvalidName);
        }
        let attributes = self.file.nodes()[self.index].attributes();
        assert(names_of(attributes@) =~= attribute_names(self@.attributes));
        match position_of(attributes, name) {
            Some(at) => Ok(Some(&attributes[at])),
            None => Ok(None),
        }
    }

    /// Get all attributes in the group
    pub fn attributes(&self) -> (r: &'f Vec<Attribute>)
        requires
            self.wf(),
        ensures
            attribute_views(r@) == self@.attributes,
    {
        self.file.nodes()[self.index].attributes()
    }

    /// Get a single dimension: the first of the given name among the
    /// dimensions that the group sees, which are its own, then those of its
    /// parent, and so on up to the root. `None` if it sees none of that
    /// name; a dimension of a subgroup is never found.
    pub fn dimension(&self, name: &str) -> (r: Result<Option<&'f Dimension>, Error>)
        requires
            self.wf(),
        ensures
            !valid_name(name@) ==> r.is_err() && r.unwrap_err() == Error::InvalidName,
            valid_name(name@) ==> r.is_ok() && ({
                let found = resolve_in(scope_dims(self.tree(), self.at()), KeyView::Name(name@));
                match r.unwrap() {
                    Some(d) => found == Some(d@),
                    None => found.is_none(),
                }
            }),
    {
        dimension_from_name(self.file.nodes(), self.index, name)
    }

    /// The dimensions that this group defines, in the order of the engine.
    pub fn dimensions(&self) -> (r: &'f Vec<Dimension>)
        requires
            self.wf(),
        ensures
            dimension_views(r@) == self@.dimensions,
    {
        dimensions_from_location(self.file.nodes(), self.index)
    }

    /// The user-defined types of this group, in the order of the engine.
    pub fn types(&self) -> (r: &'f Vec<Type>)
        requires
            self.wf(),
        ensures
            type_views(r@) == self@.types,
    {
        self.file.nodes()[self.index].types()
    }

    /// Get a group: the first of the given name among the subgroups of this
    /// group, or `None` if there is none.
    pub fn group(&self, name: &str) -> (r: Result<Option<Group<'f>>, Error>)
        requires
            self.wf(),
        ensures
            !valid_name(name@) ==> r.is_err() && r.unwrap_err() == Error::InvalidName,
            valid_name(name@) ==> r.is_ok() && (match r.unwrap() {
                Some(g) => g.wf() && g.container() == self.container() && child_named(
                    self.tree(),
                    self.at(),
                    name@,
                ) == Some(g.at()),
                None => child_named(self.tree(), self.at(), name@).is_none(),
            }),
    {
        if !is_valid_name(name) {
            return Err(Error::InvalidName);
        }
        match group_from_name(self.file.nodes(), self.index, name) {
            Some(c) => Ok(Some(Group { file: self.file, index: c })),
            None => Ok(None),
        }
    }

    /// All subgroups of this group, in the order of the engine.
    pub fn groups(&self) -> (r: Vec<Group<'f>>)
        requires
            self.wf(),
        ensures
            r@.len() == self@.groups.len(),
            forall|k: int|
                0 <= k < r@.len() ==> (#[trigger] r@[k]).wf() && r@[k].container()
                    == self.container() && r@[k].at() == self@.groups[k],
    {
        groups_at_ncid(self.file, self.index)
    }

    /// The parent of this group; `None` for the root.
    pub fn parent(&self) -> (r: Option<Group<'f>>)
        requires
            self.wf(),
        ensures
            match r {
                Some(g) => g.wf() && g.container() == self.container() && self@.parent == Some(
                    g.at(),
                ),
                None => self@.parent.is_none(),
            },
    {
        assert(node_ok(self.tree(), self.at()));
        match self.file.nodes()[self.index].parent() {
            Some(p) => Some(Group { file: self.file, index: p }),
            None => None,
        }
    }
}

/// The views of the subgroups of the group at `g`, in the order of the
/// engine.
pub(crate) fn groups_at_ncid<'f>(file: &'f File, g: usize) -> (r: Vec<Group<'f>>)
    requires
        file.wf(),
        g < file@.groups.len(),
    ensures
        r@.len() == file@.groups[g as int].groups.len(),
        forall|k: int|
            0 <= k < r@.len() ==> (#[trigger] r@[k]).wf() && r@[k].container() == file@
                && r@[k].at() == file@.groups[g as int].groups[k],
{
    let kids = file.nodes()[g].groups();
    assert(node_ok(file@.groups, g as int));
    let mut views: Vec<Group<'f>> = Vec::new();
    let mut k: usize = 0;
    while k < kids.len()
        invariant
            k <= kids@.len(),
            views@.len() == k,
            file.wf(),
            g < file@.groups.len(),
            children_ok(file@.groups, g as int),
            positions(kids@) == file@.groups[g as int].groups,
            forall|j: int|
                0 <= j < k ==> (#[trigger] views@[j]).wf() && views@[j].container() == file@
                    && views@[j].at() == file@.groups[g as int].groups[j],
        decreases kids@.len() - k,
    {
        let c = kids[k];
        assert(file@.groups[g as int].groups[k as int] == c);
        views.push(Group::new(file, c));
        k += 1;
    }
    views
}

/// Why a subgroup of the given name can not be defined in the group at
/// `g`, if it can not: the name is one that the engine could not be asked
/// about, or the group already has a subgroup of that name.
pub open spec fn group_refused(groups: Seq<GroupView>, g: int, name: Seq<char>) -> Option<Error> {
    if !valid_name(name) {
        Some(Error::InvalidName)
    } else if child_named(groups, g, name).is_some() {
        Some(Error::AlreadyExists)
    } else {
        None
    }
}

/// A group as it stands when it was just defined, under the parent at
/// `parent`: without content.
pub open spec fn empty_group(name: Seq<char>, ncid: i32, parent: int) -> GroupView {
    GroupView {
        name,
        ncid,
        parent: Some(parent),
        groups: Seq::empty(),
        dimensions: Seq::empty(),
        variables: Seq::empty(),
        attributes: Seq::empty(),
        types: Seq::empty(),
    }
}

/// What comes of defining a subgroup of the group at `g`, given the
/// engine's answer: the new group, or the reason why there is none.
pub open spec fn group_defined(
    groups: Seq<GroupView>,
    g: int,
    name: Seq<char>,
    status: i32,
    grpid: i32,
) -> Result<GroupView, Error> {
    if group_refused(groups, g, name).is_some() {
        Err(group_refused(groups, g, name).unwrap())
    } else if status != NC_NOERR {
        Err(error_of_status(status))
    } else {
        Ok(empty_group(name, grpid, g))
    }
}

/// The groups after `node` was put at the end of the list as the last
/// subgroup of the group at `g`.
pub open spec fn with_group(groups: Seq<GroupView>, g: int, node: GroupView) -> Seq<GroupView> {
    groups.update(
        g,
        GroupView { groups: groups[g].groups.push(groups.len() as int), ..groups[g] },
    ).push(node)
}

/// Tells why a subgroup of the given name can not be defined in the group
/// at `g`, if it can not.
pub(crate) fn check_group(nodes: &Vec<GroupData>, g: usize, name: &str) -> (r: Result<(), Error>)
    requires
        tree_wf(group_views(nodes@)),
        g < nodes@.len(),
    ensures
        match group_refused(group_views(nodes@), g as int, name@) {
            Some(e) => r.is_err() && r.unwrap_err() == e,
            None => r.is_ok(),
        },
{
    if !is_valid_name(name) {
        return Err(Error::InvalidName);
    }
    match group_from_name(nodes, g, name) {
        Some(_) => Err(Error::AlreadyExists),
        None => Ok(()),
    }
}

/// What is handed to the engine to define a subgroup of the group at `g`.
///
/// Nothing is to be asked of the engine where the name is not acceptable,
/// or is taken in the group.
pub(crate) fn group_request(file: &File, g: usize, name: &str) -> (r: Result<Request, Error>)
    requires
        file.wf(),
        g < file@.groups.len(),
    ensures
        match group_refused(file@.groups, g as int, name@) {
            Some(e) => r.is_err() && r.unwrap_err() == e,
            None => r.is_ok() && r.unwrap()@ == (RequestView::DefineGroup {
                ncid: file@.groups[g as int].ncid,
                name: padded(encode_utf8(name@)),
            }),
        },
{
    match check_group(file.nodes(), g, name) {
        Ok(()) => {},
        Err(e) => {
            return Err(e);
        },
    }
    match short_name_to_bytes(name) {
        Ok(bytes) => Ok(Request::DefineGroup { ncid: file.nodes()[g].ncid(), name: bytes }),
        Err(e) => Err(e),
    }
}

/// Mutable access to a group.
///
/// This is the view for writing: it holds the container to itself, so no
/// other view of any group of the container can be held while it is.
///
/// The contracts of its operations speak of [`GroupMut::container`], the
/// container as the view holds it, before and after. Each also says, of
/// the borrowed `file` at its end, that the view still writes to the same
/// container: what the view holds when it is given up is what the
/// container then is. An operation that hands out a view of its own, of a
/// subgroup or of a variable, gets the container back as that view leaves
/// it.
#[derive(Debug)]
pub struct GroupMut<'f> {
    /// The container that the group is in.
    pub file: &'f mut File,
    /// Where the group stands among the groups of the container.
    pub index: usize,
}

impl<'f> View for GroupMut<'f> {
    type V = GroupView;

    open spec fn view(&self) -> GroupView {
        self.file@.groups[self.index as int]
    }
}

/// What holds after a variable was defined through a view for writing:
/// the view of the new variable where it was defined, and the container
/// as it was where it was not.
pub open spec fn variable_added(
    before: FileView,
    g: int,
    outcome: Result<VariableView, Error>,
    r: Result<VariableMut<'_>, Error>,
) -> bool {
    match outcome {
        Ok(v) => {
            &&& r.is_ok()
            &&& r.unwrap().wf()
            &&& r.unwrap().group_at() == g
            &&& r.unwrap().at() == before.groups[g].variables.len()
            &&& r.unwrap().container() == with_groups(before, with_variable(before.groups, g, v))
        },
        Err(e) => r.is_err() && r.unwrap_err() == e,
    }
}

impl<'f> GroupMut<'f> {
    /// The container that the group is in.
    pub open spec fn container(&self) -> FileView {
        self.file@
    }

    /// The groups of the container that the group is in.
    pub open spec fn tree(&self) -> Seq<GroupView> {
        self.file@.groups
    }

    /// Where the group stands among the groups of its container.
    pub open spec fn at(&self) -> int {
        self.index as int
    }

    /// The view is of a group of a well-formed container.
    pub open spec fn wf(&self) -> bool {
        &&& self.file.wf()
        &&& self.index < self.file@.groups.len()
    }

    /// The view for reading of the same group.
    pub fn as_group(&self) -> (g: Group<'_>)
        requires
            self.wf(),
        ensures
            g.wf(),
            g.container() == self.container(),
            g.at() == self.at(),
    {
        Group::new(&*self.file, self.index)
    }

    /// What is handed to the engine to define a dimension in this group.
    /// A length of zero asks for a dimension that grows.
    ///
    /// Nothing is to be asked of the engine where the name is not
    /// acceptable ([`Error::InvalidName`]) or the group already defines a
    /// dimension of that name ([`Error::AlreadyExists`]).
    pub fn dimension_request(&self, name: &str, len: usize) -> (r: Result<Request, Error>)
        requires
            self.wf(),
        ensures
            match dimension_refused(self.tree(), self.at(), name@) {
                Some(e) => r.is_err() && r.unwrap_err() == e,
                None => r.is_ok() && r.unwrap()@ == (RequestView::DefineDimension {
                    ncid: self@.ncid,
                    name: padded(encode_utf8(name@)),
                    len,
                }),
            },
    {
        dimension_request(&*self.file, self.index, name, len)
    }

    /// Adds a dimension with the given name and size. A size of zero gives an unlimited dimension
    ///
    /// `status` and `dimid` are the engine's answer to the request to
    /// define it. The dimension is put at the end of those of the group.
    /// Where the name is not acceptable, the group already defines a
    /// dimension of that name, or the engine failed, nothing changes.
    pub fn add_dimension(&mut self, name: &str, len: usize, status: i32, dimid: i32) -> (r: Result<
        Dimension,
        Error,
    >)
        requires
            old(self).wf(),
        ensures
            final(self).wf(),
            final(self).at() == old(self).at(),
            *final(final(self).file) == *final(old(self).file),
            match dimension_defined(old(self).tree(), old(self).at(), name@, len, status, dimid) {
                Ok(d) => {
                    &&& r.is_ok()
                    &&& r.unwrap()@ == d
                    &&& final(self).container() == with_groups(
                        old(self).container(),
                        with_dimension(old(self).tree(), old(self).at(), d),
                    )
                },
                Err(e) => {
                    &&& r.is_err()
                    &&& r.unwrap_err() == e
                    &&& final(self).container() == old(self).container()
                },
            },
    {
        add_dimension_at(self.file, self.index, name, len, status, dimid)
    }

    /// Adds a dimension with unbounded size
    pub fn add_unlimited_dimension(&mut self, name: &str, status: i32, dimid: i32) -> (r: Result<
        Dimension,
        Error,
    >)
        requires
            old(self).wf(),
        ensures
            final(self).wf(),
            final(self).at() == old(self).at(),
            *final(final(self).file) == *final(old(self).file),
            match dimension_defined(old(self).tree(), old(self).at(), name@, 0, status, dimid) {
                Ok(d) => {
                    &&& r.is_ok()
                    &&& r.unwrap()@ == d
                    &&& d.len.is_none()
                    &&& final(self).container() == with_groups(
                        old(self).container(),
                        with_dimension(old(self).tree(), old(self).at(), d),
                    )
                },
                Err(e) => {
                    &&& r.is_err()
                    &&& r.unwrap_err() == e
                    &&& final(self).container() == old(self).container()
                },
            },
    {
        self.add_dimension(name, 0, status, dimid)
    }

    /// What is handed to the engine to put a value under a name on this
    /// group.
    pub fn attribute_request(&self, name: &str, value: &AttrValue) -> (r: Result<Request, Error>)
        requires
            self.wf(),
        ensures
            !valid_name(name@) ==> r.is_err() && r.unwrap_err() == Error::InvalidName,
            valid_name(name@) ==> r.is_ok() && r.unwrap()@ == (RequestView::PutAttribute {
                ncid: self@.ncid,
                varid: NC_GLOBAL,
                name: padded(encode_utf8(name@)),
                xtype: value_xtype(value@),
                len: value_len(value@) as usize,
            }),
    {
        attribute_request(self.file.nodes()[self.index].ncid(), NC_GLOBAL, name, value)
    }

    /// Add an attribute to the group
    ///
    /// `status` is the engine's answer to the request to put the value.
    /// The attribute takes the place of the first attribute of that name
    /// of the group, or stands at the end if there is none. Whether a value
    /// of another kind may replace one is for the engine to say, by its
    /// status.
    pub fn add_attribute(&mut self, name: &str, value: AttrValue, status: i32) -> (r: Result<
        Attribute,
        Error,
    >)
        requires
            old(self).wf(),
        ensures
            final(self).wf(),
            final(self).at() == old(self).at(),
            *final(final(self).file) == *final(old(self).file),
            match attribute_refused(name@, status) {
                None => {
                    let attr = attribute_with(
                        name@,
                        old(self)@.ncid,
                        NC_GLOBAL,
                        value@,
                    );
                    &&& r.is_ok()
                    &&& r.unwrap()@ == attr
                    &&& final(self).container() == with_groups(
                        old(self).container(),
                        with_group_attribute(old(self).tree(), old(self).at(), attr),
                    )
                },
                Some(e) => {
                    &&& r.is_err()
                    &&& r.unwrap_err() == e
                    &&& final(self).container() == old(self).container()
                },
            },
    {
        add_attribute_at(self.file, self.index, name, value, status)
    }

    /// What is handed to the engine to define a subgroup of this group.
    pub fn group_request(&self, name: &str) -> (r: Result<Request, Error>)
        requires
            self.wf(),
        ensures
            match group_refused(self.tree(), self.at(), name@) {
                Some(e) => r.is_err() && r.unwrap_err() == e,
                None => r.is_ok() && r.unwrap()@ == (RequestView::DefineGroup {
                    ncid: self@.ncid,
                    name: padded(encode_utf8(name@)),
                }),
            },
    {
        group_request(&*self.file, self.index, name)
    }

    /// Add an empty group to the dataset
    ///
    /// `status` and `grpid` are the engine's answer to the request to
    /// define it. The new group becomes the last subgroup of this group,
    /// and the view for writing of it is returned. Where the name is not
    /// acceptable, the group already has a subgroup of that name, or the
    /// engine failed, nothing changes.
    pub fn add_group(&mut self, name: &str, status: i32, grpid: i32) -> (r: Result<
        GroupMut<'_>,
        Error,
    >)
        requires
            old(self).wf(),
        ensures
            final(self).at() == old(self).at(),
            *final(final(self).file) == *final(old(self).file),
            match group_defined(old(self).tree(), old(self).at(), name@, status, grpid) {
                Ok(node) => {
                    &&& r.is_ok()
                    &&& r.unwrap().wf()
                    &&& r.unwrap().at() == old(self).tree().len()
                    &&& r.unwrap().container() == with_groups(
                        old(self).container(),
                        with_group(old(self).tree(), old(self).at(), node),
                    )
                    &&& final(self).container() == final(r.unwrap().file)@
                },
                Err(e) => {
                    &&& r.is_err()
                    &&& r.unwrap_err() == e
                    &&& final(self).container() == old(self).container()
                },
            },
    {
        match Self::add_group_at(self.file, self.index, name, status, grpid) {
            Ok(child) => Ok(GroupMut { file: &mut *self.file, index: child }),
            Err(e) => Err(e),
        }
    }

    /// Records a subgroup that the engine was asked to define in the group
    /// at `g`. `status` and `grpid` are the engine's answer.
    ///
    /// The new group is put at the end of the list of groups, as the last
    /// subgroup of its parent, and where it stands is returned. Where the
    /// name is not acceptable or is taken in the group, or the engine
    /// failed, the container is left as it was.
    pub(crate) fn add_group_at(file: &mut File, g: usize, name: &str, status: i32, grpid: i32)
        -> (r: Result<usize, Error>)
        requires
            old(file).wf(),
            g < old(file)@.groups.len(),
        ensures
            final(file).wf(),
            match group_defined(old(file)@.groups, g as int, name@, status, grpid) {
                Ok(node) => {
                    &&& r.is_ok()
                    &&& r.unwrap() == old(file)@.groups.len()
                    &&& final(file)@ == with_groups(
                        old(file)@,
                        with_group(old(file)@.groups, g as int, node),
                    )
                },
                Err(e) => r.is_err() && r.unwrap_err() == e && final(file)@ == old(file)@,
            },
    {
        match check_group(file.nodes(), g, name) {
            Ok(()) => {},
            Err(e) => {
                return Err(e);
            },
        }
        match checked(status) {
            Ok(()) => {},
            Err(e) => {
                return Err(e);
            },
        }
        Ok(file.push_group(g, name.to_owned(), grpid))
    }

    /// Mutable access to subgroup
    pub fn group_mut(&mut self, name: &str) -> (r: Result<Option<GroupMut<'_>>, Error>)
        requires
            old(self).wf(),
        ensures
            final(self).at() == old(self).at(),
            *final(final(self).file) == *final(old(self).file),
            !valid_name(name@) ==> r.is_err() && r.unwrap_err() == Error::InvalidName,
            valid_name(name@) ==> r.is_ok() && (match r.unwrap() {
                Some(g) => {
                    &&& g.wf()
                    &&& g.container() == old(self).container()
                    &&& child_named(old(self).tree(), old(self).at(), name@) == Some(g.at())
                    &&& final(self).container() == final(g.file)@
                },
                None => child_named(old(self).tree(), old(self).at(), name@).is_none(),
            }),
            r.is_err() || r.unwrap().is_none() ==> final(self).container() == old(
                self,
            ).container(),
    {
        if !is_valid_name(name) {
            return Err(Error::InvalidName);
        }
        match group_from_name(self.file.nodes(), self.index, name) {
            Some(c) => Ok(Some(GroupMut { file: &mut *self.file, index: c })),
            None => Ok(None),
        }
    }

    /// Iterator over all groups (mutable access)
    ///
    /// The subgroups are handed out in turn, in the order of the engine.
    pub fn groups_mut(&mut self) -> (r: GroupsMut<'_>)
        requires
            old(self).wf(),
        ensures
            final(self).at() == old(self).at(),
            *final(final(self).file) == *final(old(self).file),
            r.wf(),
            r.container() == old(self).container(),
            r.parent == old(self).at(),
            r.done() == 0,
            final(self).container() == final(r.file)@,
    {
        GroupsMut { file: &mut *self.file, parent: self.index, next: 0 }
    }

    /// What is handed to the engine to define a variable of the given type
    /// in this group, shaped by the dimensions of the given names.
    fn request_from_names(&self, name: &str, xtype: i32, dims: &[&str]) -> (r: Result<
        Request,
        Error,
    >)
        requires
            self.wf(),
        ensures
            match variable_asked(self.tree(), self.at(), name@, xtype, str_views(dims@)) {
                Ok(request) => r.is_ok() && r.unwrap()@ == request,
                Err(e) => r.is_err() && r.unwrap_err() == e,
            },
    {
        match check_variable(self.file.nodes(), self.index, name) {
            Ok(()) => {},
            Err(e) => {
                return Err(e);
            },
        }
        match resolve_names(self.file.nodes(), self.index, dims) {
            Ok(dimensions) => variable_request(&*self.file, self.index, name, xtype, &dimensions),
            Err(e) => Err(e),
        }
    }

    /// What is handed to the engine to define a variable of an atomic kind
    /// in this group, shaped by the dimensions of the given names.
    ///
    /// Each name is looked up among the dimensions of this group first,
    /// then among those of its ancestors. Nothing is to be asked of the
    /// engine where the name of the variable is not acceptable or is taken
    /// in the group, or where a dimension is not found.
    pub fn variable_request(&self, name: &str, kind: SimpleType, dims: &[&str]) -> (r: Result<
        Request,
        Error,
    >)
        requires
            self.wf(),
        ensures
            match variable_asked(
                self.tree(),
                self.at(),
                name@,
                id_of_simple(kind),
                str_views(dims@),
            ) {
                Ok(request) => r.is_ok() && r.unwrap()@ == request,
                Err(e) => r.is_err() && r.unwrap_err() == e,
            },
    {
        self.request_from_names(name, kind.id(), dims)
    }

    /// What is handed to the engine to define a variable of strings in
    /// this group, shaped by the dimensions of the given names.
    pub fn string_variable_request(&self, name: &str, dims: &[&str]) -> (r: Result<
        Request,
        Error,
    >)
        requires
            self.wf(),
        ensures
            match variable_asked(self.tree(), self.at(), name@, NC_STRING, str_views(dims@)) {
                Ok(request) => r.is_ok() && r.unwrap()@ == request,
                Err(e) => r.is_err() && r.unwrap_err() == e,
            },
    {
        self.request_from_names(name, NC_STRING, dims)
    }

    /// What is handed to the engine to define a variable of an atomic kind
    /// in this group, shaped by the dimensions of the given identifiers.
    pub fn variable_from_identifiers_request(
        &self,
        name: &str,
        kind: SimpleType,
        dims: &[Identifier],
    ) -> (r: Result<Request, Error>)
        requires
            self.wf(),
        ensures
            match variable_asked_by_ids(self.tree(), self.at(), name@, id_of_simple(kind), dims@) {
                Ok(request) => r.is_ok() && r.unwrap()@ == request,
                Err(e) => r.is_err() && r.unwrap_err() == e,
            },
    {
        match check_variable(self.file.nodes(), self.index, name) {
            Ok(()) => {},
            Err(e) => {
                return Err(e);
            },
        }
        match resolve_ids(self.file.nodes(), self.index, dims) {
            Ok(dimensions) => variable_request(
                &*self.file,
                self.index,
                name,
                kind.id(),
                &dimensions,
            ),
            Err(e) => Err(e),
        }
    }

    /// Records a variable of the given type, shaped by the dimensions of
    /// the given names.
    fn add_from_str(&mut self, name: &str, xtype: i32, dims: &[&str], status: i32, varid: i32)
        -> (r: Result<VariableMut<'_>, Error>)
        requires
            old(self).wf(),
        ensures
            final(self).at() == old(self).at(),
            *final(final(self).file) == *final(old(self).file),
            variable_added(
                old(self).container(),
                old(self).at(),
                variable_from_names(
                    old(self).tree(),
                    old(self).at(),
                    name@,
                    xtype,
                    str_views(dims@),
                    status,
                    varid,
                ),
                r,
            ),
            r.is_ok() ==> final(self).container() == final(r.unwrap().file)@,
            r.is_err() ==> final(self).container() == old(self).container(),
    {
        match check_variable(self.file.nodes(), self.index, name) {
            Ok(()) => {},
            Err(e) => {
                return Err(e);
            },
        }
        let dimensions = match resolve_names(self.file.nodes(), self.index, dims) {
            Ok(d) => d,
            Err(e) => {
                return Err(e);
            },
        };
        match add_variable_at(self.file, self.index, name, xtype, dimensions, status, varid) {
            Ok(at) => Ok(VariableMut { file: &mut *self.file, group: self.index, index: at }),
            Err(e) => Err(e),
        }
    }

    /// Create a Variable into the dataset, with no data written into it
    ///
    /// Dimensions are identified using the name of the dimension, and will recurse upwards
    /// if not found in the current group.
    ///
    /// `status` and `varid` are the engine's answer to the request to
    /// define the variable. The variable is put at the end of those of the
    /// group, and the view for writing of it is returned. Where the name is
    /// not acceptable or is taken in the group, a dimension is not found,
    /// or the engine failed, nothing changes. The name of the variable is
    /// judged first, then the names of the dimensions in their order, then
    /// the engine's answer: the first of these to fail gives the error.
    pub fn add_variable(
        &mut self,
        name: &str,
        kind: SimpleType,
        dims: &[&str],
        status: i32,
        varid: i32,
    ) -> (r: Result<VariableMut<'_>, Error>)
        requires
            old(self).wf(),
        ensures
            final(self).at() == old(self).at(),
            *final(final(self).file) == *final(old(self).file),
            variable_added(
                old(self).container(),
                old(self).at(),
                variable_from_names(
                    old(self).tree(),
                    old(self).at(),
                    name@,
                    id_of_simple(kind),
                    str_views(dims@),
                    status,
                    varid,
                ),
                r,
            ),
            r.is_ok() ==> final(self).container() == final(r.unwrap().file)@,
            r.is_err() ==> final(self).container() == old(self).container(),
    {
        self.add_from_str(name, kind.id(), dims, status, varid)
    }

    /// Adds a variable with a basic type of string
    pub fn add_string_variable(&mut self, name: &str, dims: &[&str], status: i32, varid: i32) -> (r:
        Result<VariableMut<'_>, Error>)
        requires
            old(self).wf(),
        ensures
            final(self).at() == old(self).at(),
            *final(final(self).file) == *final(old(self).file),
            variable_added(
                old(self).container(),
                old(self).at(),
                variable_from_names(
                    old(self).tree(),
                    old(self).at(),
                    name@,
                    NC_STRING,
                    str_views(dims@),
                    status,
                    varid,
                ),
                r,
            ),
            r.is_ok() ==> final(self).container() == final(r.unwrap().file)@,
            r.is_err() ==> final(self).container() == old(self).container(),
    {
        self.add_from_str(name, NC_STRING, dims, status, varid)
    }

    /// Adds a variable from a set of unique identifiers, recursing upwards
    /// from the current group if necessary.
    ///
    /// An identifier of no dimension that the group sees is refused with
    /// [`Error::NotFound`].
    pub fn add_variable_from_identifiers(
        &mut self,
        name: &str,
        kind: SimpleType,
        dims: &[Identifier],
        status: i32,
        varid: i32,
    ) -> (r: Result<VariableMut<'_>, Error>)
        requires
            old(self).wf(),
        ensures
            final(self).at() == old(self).at(),
            *final(final(self).file) == *final(old(self).file),
            variable_added(
                old(self).container(),
                old(self).at(),
                variable_from_ids(
                    old(self).tree(),
                    old(self).at(),
                    name@,
                    id_of_simple(kind),
                    dims@,
                    status,
                    varid,
                ),
                r,
            ),
            r.is_ok() ==> final(self).container() == final(r.unwrap().file)@,
            r.is_err() ==> final(self).container() == old(self).container(),
    {
        match check_variable(self.file.nodes(), self.index, name) {
            Ok(()) => {},
            Err(e) => {
                return Err(e);
            },
        }
        let dimensions = match resolve_ids(self.file.nodes(), self.index, dims) {
            Ok(d) => d,
            Err(e) => {
                return Err(e);
            },
        };
        match add_variable_at(
            self.file,
            self.index,
            name,
            kind.id(),
            dimensions,
            status,
            varid,
        ) {
            Ok(at) => Ok(VariableMut { file: &mut *self.file, group: self.index, index: at }),
            Err(e) => Err(e),
        }
    }

    /// Get a mutable variable from the group
    pub fn variable_mut(&mut self, name: &str) -> (r: Result<Option<VariableMut<'_>>, Error>)
        requires
            old(self).wf(),
        ensures
            final(self).at() == old(self).at(),
            *final(final(self).file) == *final(old(self).file),
            !valid_name(name@) ==> r.is_err() && r.unwrap_err() == Error::InvalidName,
            valid_name(name@) ==> r.is_ok() && ({
                let at = name_index(variable_names(old(self)@.variables), name@);
                match r.unwrap() {
                    Some(v) => {
                        &&& v.wf()
                        &&& v.container() == old(self).container()
                        &&& v.group_at() == old(self).at()
                        &&& v.at() == at
                        &&& final(self).container() == final(v.file)@
                    },
                    None => at == old(self)@.variables.len(),
                }
            }),
            r.is_err() || r.unwrap().is_none() ==> final(self).container() == old(
                self,
            ).container(),
    {
        if !is_valid_name(name) {
            return Err(Error::InvalidName);
        }
        let variables = self.file.nodes()[self.index].variables();
        assert(names_of(variables@) =~= variable_names(self@.variables));
        match position_of(variables, name) {
            Some(at) => Ok(
                Some(VariableMut { file: &mut *self.file, group: self.index, index: at }),
            ),
            None => Ok(None),
        }
    }

    /// Iterate over all variables in a group, with mutable access
    ///
    /// The variables are handed out in turn, in the order of the engine.
    pub fn variables_mut(&mut self) -> (r: VariablesMut<'_>)
        requires
            old(self).wf(),
        ensures
            final(self).at() == old(self).at(),
            *final(final(self).file) == *final(old(self).file),
            r.wf(),
            r.container() == old(self).container(),
            r.group == old(self).at(),
            r.done() == 0,
            final(self).container() == final(r.file)@,
    {
        VariablesMut { file: &mut *self.file, group: self.index, next: 0 }
    }
}

/// The subgroups of a group, one after the other, each for writing.
///
/// Only one view for writing can be held at a time, so the subgroups are
/// handed out in turn: the next one when the one before was given up.
#[derive(Debug)]
pub struct GroupsMut<'f> {
    /// The container that the groups are in.
    pub file: &'f mut File,
    /// Where the parent of the subgroups stands among the groups.
    pub parent: usize,
    /// How many of the subgroups were handed out.
    pub next: usize,
}

impl<'f> GroupsMut<'f> {
    /// The container that the groups are in.
    pub open spec fn container(&self) -> FileView {
        self.file@
    }

    /// The subgroups that are handed out, by where they stand among the
    /// groups.
    pub open spec fn children(&self) -> Seq<int> {
        self.file@.groups[self.parent as int].groups
    }

    /// How many of the subgroups were handed out.
    pub open spec fn done(&self) -> int {
        self.next as int
    }

    /// The view is of the subgroups of a group of a well-formed container.
    pub open spec fn wf(&self) -> bool {
        &&& self.file.wf()
        &&& self.parent < self.file@.groups.len()
    }

    /// The view for writing of the next subgroup; `None` when all were
    /// handed out.
    pub fn next(&mut self) -> (r: Option<GroupMut<'_>>)
        requires
            old(self).wf(),
        ensures
            final(self).parent == old(self).parent,
            *final(final(self).file) == *final(old(self).file),
            match r {
                Some(g) => {
                    &&& old(self).done() < old(self).children().len()
                    &&& g.wf()
                    &&& g.container() == old(self).container()
                    &&& g.at() == old(self).children()[old(self).done()]
                    &&& final(self).done() == old(self).done() + 1
                    &&& final(self).container() == final(g.file)@
                },
                None => {
                    &&& old(self).done() >= old(self).children().len()
                    &&& final(self).done() == old(self).done()
                    &&& final(self).container() == old(self).container()
                },
            },
    {
        let kids = self.file.nodes()[self.parent].groups();
        assert(node_ok(self.file@.groups, self.parent as int));
        if self.next < kids.len() {
            let c = kids[self.next];
            assert(self.file@.groups[self.parent as int].groups[self.next as int] == c);
            self.next = self.next + 1;
            Some(GroupMut { file: &mut *self.file, index: c })
        } else {
            None
        }
    }
}

/// The variables of a group, one after the other, each for writing.
#[derive(Debug)]
pub struct VariablesMut<'f> {
    /// The container that the variables are in.
    pub file: &'f mut File,
    /// Where the group of the variables stands among the groups.
    pub group: usize,
    /// How many of the variables were handed out.
    pub next: usize,
}

impl<'f> VariablesMut<'f> {
    /// The container that the variables are in.
    pub open spec fn container(&self) -> FileView {
        self.file@
    }

    /// The variables that are handed out.
    pub open spec fn variables(&self) -> Seq<VariableView> {
        self.file@.groups[self.group as int].variables
    }

    /// How many of the variables were handed out.
    pub open spec fn done(&self) -> int {
        self.next as int
    }

    /// The view is of the variables of a group of a well-formed container.
    pub open spec fn wf(&self) -> bool {
        &&& self.file.wf()
        &&& self.group < self.file@.groups.len()
    }

    /// The view for writing of the next variable; `None` when all were
    /// handed out.
    pub fn next(&mut self) -> (r: Option<VariableMut<'_>>)
        requires
            old(self).wf(),
        ensures
            final(self).group == old(self).group,
            *final(final(self).file) == *final(old(self).file),
            match r {
                Some(v) => {
                    &&& old(self).done() < old(self).variables().len()
                    &&& v.wf()
                    &&& v.container() == old(self).container()
                    &&& v.group_at() == old(self).group
                    &&& v.at() == old(self).done()
                    &&& final(self).done() == old(self).done() + 1
                    &&& final(self).container() == final(v.file)@
                },
                None => {
                    &&& old(self).done() >= old(self).variables().len()
                    &&& final(self).done() == old(self).done()
                    &&& final(self).container() == old(self).container()
                },
            },
    {
        let variables = self.file.nodes()[self.group].variables();
        assert(variable_views(variables@).len() == variables@.len());
        let count = variables.len();
        if self.next < count {
            let at = self.next;
            self.next = self.next + 1;
            Some(VariableMut { file: &mut *self.file, group: self.group, index: at })
        } else {
            None
        }
    }
}

} // verus!
