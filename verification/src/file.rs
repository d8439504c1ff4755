//! Containers: opening, creating and closing them, and building the tree of
//! groups from what the storage engine reports.

use vstd::prelude::*;
use crate::attribute::{
    attribute_names, attribute_views, attributes_of, get_attributes,
    with_group_attribute, with_variable_attribute, Attribute, NC_GLOBAL,
};
use crate::dimension::{
    dimension_views, dimension_wf, dimensions_of, get_group_dimensions, lemma_resolve_in_found,
    resolve_in, with_dimension, Dimension, DimensionView, Key, KeyView,
};
use crate::engine::{RawGroup, RawVariable, Request, RequestView};
use crate::error::Error;
use crate::group::{child_named, empty_group, with_group, Group, GroupMut};
use crate::tree::{
    children_ok, dimensions_ok, group_views, lemma_scope_frame, lemma_tree_grows, node_ok,
    position, positions, resolve_up, scope_dims, scope_of, tree_wf, variables_ok, GroupData,
    GroupView,
};
use crate::types::{classes_known, get_types, user_types_of};
use crate::utils::{buffer_name, name_from_buffer, name_index, valid_name};
use crate::variable::{
    variable_names, variable_views, with_variable, Variable, VariableView,
};

verus! {

/// True when every handle names a dimension of the scope.
pub open spec fn dims_resolvable(scope: Seq<DimensionView>, dimids: Seq<i32>) -> bool {
    forall|k: int|
        0 <= k < dimids.len() ==> resolve_in(scope, KeyView::Handle(#[trigger] dimids[k])).is_some()
}

/// The dimensions that the handles name in the scope, in order.
pub open spec fn dims_of_var(scope: Seq<DimensionView>, dimids: Seq<i32>) -> Seq<DimensionView>
    recommends
        dims_resolvable(scope, dimids),
{
    dimids.map_values(|dimid: i32| resolve_in(scope, KeyView::Handle(dimid)).unwrap())
}

/// Why the engine's record of a variable is refused, if it is: because one
/// of its dimensions is not in the scope.
pub open spec fn variable_error(scope: Seq<DimensionView>, raw: RawVariable) -> Option<Error> {
    if !dims_resolvable(scope, raw.dimids@) {
        Some(Error::NotFound)
    } else {
        None
    }
}

/// The variable that the engine's record describes in the group `ncid`,
/// whose scope is `scope`.
pub open spec fn variable_of(ncid: i32, scope: Seq<DimensionView>, raw: RawVariable)
    -> VariableView {
    VariableView {
        name: buffer_name(raw.name@),
        ncid,
        varid: raw.varid,
        vartype: raw.xtype,
        dimensions: dims_of_var(scope, raw.dimids@),
        attributes: attributes_of(ncid, raw.varid, raw.attributes@),
    }
}

/// The variables that the engine's records describe, in order.
pub open spec fn variables_of(ncid: i32, scope: Seq<DimensionView>, raw: Seq<RawVariable>) -> Seq<
    VariableView,
> {
    raw.map_values(|r: RawVariable| variable_of(ncid, scope, r))
}

/// The error of the first record, at or after `from`, that is refused.
pub open spec fn variables_error_from(
    scope: Seq<DimensionView>,
    raw: Seq<RawVariable>,
    from: int,
) -> Option<Error>
    decreases raw.len() - from,
{
    if from < 0 || from >= raw.len() {
        None
    } else if variable_error(scope, raw[from]).is_some() {
        variable_error(scope, raw[from])
    } else {
        variables_error_from(scope, raw, from + 1)
    }
}

/// The error of the first record that is refused; `None` if all are accepted.
pub open spec fn variables_error(scope: Seq<DimensionView>, raw: Seq<RawVariable>) -> Option<
    Error,
> {
    variables_error_from(scope, raw, 0)
}

/// The dimensions that the engine reports as defined in a group.
pub open spec fn own_dims(raw: RawGroup) -> Seq<DimensionView> {
    dimensions_of(raw.grpid, raw.dimensions@, raw.unlimited@)
}

/// The number of groups in what the engine reports of a group: the group
/// and all that is below it.
pub open spec fn subtree_size(raw: RawGroup) -> nat
    decreases raw,
{
    1 + forest_size(raw.groups@, raw.groups@.len())
}

/// The number of groups in what the engine reports of the first `n` of
/// `raws`.
pub open spec fn forest_size(raws: Seq<RawGroup>, n: nat) -> nat
    decreases raws, n,
{
    if n == 0 || n > raws.len() {
        0
    } else {
        forest_size(raws, (n - 1) as nat) + subtree_size(raws[n - 1])
    }
}

/// Where the subgroups stand in the list of groups when the first of them
/// stands at `first`: each after all that is below those before it.
pub open spec fn child_positions(raws: Seq<RawGroup>, first: int) -> Seq<int> {
    Seq::new(raws.len(), |k: int| first + forest_size(raws, k as nat))
}

/// The group that the engine's record describes, standing at `at` in the
/// list of groups under the parent at `parent`, where `inherited` is what
/// the parent sees.
pub open spec fn node_of(
    raw: RawGroup,
    name: Seq<char>,
    parent: Option<int>,
    at: int,
    inherited: Seq<DimensionView>,
) -> GroupView {
    GroupView {
        name,
        ncid: raw.grpid,
        parent,
        groups: child_positions(raw.groups@, at + 1),
        dimensions: own_dims(raw),
        variables: variables_of(raw.grpid, own_dims(raw) + inherited, raw.variables@),
        attributes: attributes_of(raw.grpid, NC_GLOBAL, raw.attributes@),
        types: user_types_of(raw.grpid, raw.types@),
    }
}

/// The list of groups that the engine's record of a group describes: the
/// group itself, at `at`, and after it all that is below each of its
/// subgroups in turn.
pub open spec fn flatten(
    raw: RawGroup,
    name: Seq<char>,
    parent: Option<int>,
    at: int,
    inherited: Seq<DimensionView>,
) -> Seq<GroupView>
    decreases raw,
{
    seq![node_of(raw, name, parent, at, inherited)] + flatten_forest(
        raw.groups@,
        raw.groups@.len(),
        at,
        at + 1,
        own_dims(raw) + inherited,
    )
}

/// The list of groups that the first `n` of `raws` describe, as subgroups
/// of the group at `parent`, the first of them standing at `first`.
pub open spec fn flatten_forest(
    raws: Seq<RawGroup>,
    n: nat,
    parent: int,
    first: int,
    inherited: Seq<DimensionView>,
) -> Seq<GroupView>
    decreases raws, n,
{
    if n == 0 || n > raws.len() {
        Seq::empty()
    } else {
        flatten_forest(raws, (n - 1) as nat, parent, first, inherited) + flatten(
            raws[n - 1],
            buffer_name(raws[n - 1].name@),
            Some(parent),
            first + forest_size(raws, (n - 1) as nat),
            inherited,
        )
    }
}

/// Why the engine's record of a group is refused, if it is: the first
/// error met when its types, its variables and then its subgroups are read
/// in turn. Attributes are never a reason.
pub open spec fn group_error(raw: RawGroup, inherited: Seq<DimensionView>) -> Option<Error>
    decreases raw,
{
    let scope = own_dims(raw) + inherited;
    if !classes_known(raw.grpid, raw.types@) {
        Some(Error::Unsupported)
    } else if variables_error(scope, raw.variables@).is_some() {
        variables_error(scope, raw.variables@)
    } else {
        forest_error(raw.groups@, raw.groups@.len(), scope)
    }
}

/// The first error met when the first `n` of `raws` are read in turn.
pub open spec fn forest_error(raws: Seq<RawGroup>, n: nat, inherited: Seq<DimensionView>)
    -> Option<Error>
    decreases raws, n,
{
    if n == 0 || n > raws.len() {
        None
    } else if forest_error(raws, (n - 1) as nat, inherited).is_some() {
        forest_error(raws, (n - 1) as nat, inherited)
    } else {
        group_error(raws[n - 1], inherited)
    }
}

/// An error met among the first `n` records is the error of any longer run.
pub proof fn lemma_forest_error_stays(
    raws: Seq<RawGroup>,
    n: nat,
    m: nat,
    inherited: Seq<DimensionView>,
)
    requires
        n <= m <= raws.len(),
        forest_error(raws, n, inherited).is_some(),
    ensures
        forest_error(raws, m, inherited) == forest_error(raws, n, inherited),
    decreases m - n,
{
    if n < m {
        lemma_forest_error_stays(raws, n, (m - 1) as nat, inherited);
    }
}

/// The list that a record describes has as many groups as the record.
pub proof fn lemma_flatten_len(
    raw: RawGroup,
    name: Seq<char>,
    parent: Option<int>,
    at: int,
    inherited: Seq<DimensionView>,
)
    ensures
        flatten(raw, name, parent, at, inherited).len() == subtree_size(raw),
    decreases raw,
{
    lemma_flatten_forest_len(
        raw.groups@,
        raw.groups@.len(),
        at,
        at + 1,
        own_dims(raw) + inherited,
    );
}

/// The list that the first `n` records describe has as many groups as they.
pub proof fn lemma_flatten_forest_len(
    raws: Seq<RawGroup>,
    n: nat,
    parent: int,
    first: int,
    inherited: Seq<DimensionView>,
)
    ensures
        flatten_forest(raws, n, parent, first, inherited).len() == forest_size(raws, n),
    decreases raws, n,
{
    if n == 0 || n > raws.len() {
    } else {
        lemma_flatten_forest_len(raws, (n - 1) as nat, parent, first, inherited);
        lemma_flatten_len(
            raws[n - 1],
            buffer_name(raws[n - 1].name@),
            Some(parent),
            first + forest_size(raws, (n - 1) as nat),
            inherited,
        );
    }
}

/// Finds the dimensions of a variable by their handles: each among the
/// dimensions of the group `g` first, then among those of its ancestors,
/// nearest first.
///
/// Fails with [`Error::NotFound`] exactly when a handle names no dimension
/// that the group sees.
pub(crate) fn get_dimensions_of_var(dimids: &Vec<i32>, nodes: &Vec<GroupData>, g: usize) -> (r:
    Result<Vec<Dimension>, Error>)
    requires
        tree_wf(group_views(nodes@)),
        g < nodes@.len(),
    ensures
        ({
            let scope = scope_dims(group_views(nodes@), g as int);
            if dims_resolvable(scope, dimids@) {
                &&& r.is_ok()
                &&& dimension_views(r.unwrap()@) == dims_of_var(scope, dimids@)
                &&& forall|k: int|
                    0 <= k < dimids@.len() ==> scope.contains(
                        #[trigger] dims_of_var(scope, dimids@)[k],
                    )
            } else {
                r.is_err() && r.unwrap_err() == Error::NotFound
            }
        }),
{
    let ghost scope = scope_dims(group_views(nodes@), g as int);
    let mut dimensions: Vec<Dimension> = Vec::new();
    let mut i: usize = 0;
    while i < dimids.len()
        invariant
            i <= dimids@.len(),
            dimensions@.len() == i,
            tree_wf(group_views(nodes@)),
            g < nodes@.len(),
            scope == scope_dims(group_views(nodes@), g as int),
            forall|k: int|
                0 <= k < i ==> resolve_in(scope, KeyView::Handle(#[trigger] dimids@[k])).is_some(),
            forall|k: int|
                0 <= k < i ==> (#[trigger] dimensions@[k])@ == resolve_in(
                    scope,
                    KeyView::Handle(dimids@[k]),
                ).unwrap(),
        decreases dimids@.len() - i,
    {
        let key = Key::Handle(dimids[i]);
        match resolve_up(nodes, g, &key) {
            Some(d) => {
                dimensions.push(d.clone());
            },
            None => {
                return Err(Error::NotFound);
            },
        }
        i += 1;
    }
    proof {
        assert(dimension_views(dimensions@) =~= dims_of_var(scope, dimids@));
        assert forall|k: int| 0 <= k < dimids@.len() implies scope.contains(
            #[trigger] dims_of_var(scope, dimids@)[k],
        ) by {
            lemma_resolve_in_found(scope, KeyView::Handle(dimids@[k]));
        }
    }
    Ok(dimensions)
}

/// Builds one variable of the group `g`, whose handle is `ncid`, from the
/// engine's record.
pub(crate) fn get_variable(ncid: i32, raw: &RawVariable, nodes: &Vec<GroupData>, g: usize) -> (r:
    Result<Variable, Error>)
    requires
        tree_wf(group_views(nodes@)),
        g < nodes@.len(),
    ensures
        ({
            let scope = scope_dims(group_views(nodes@), g as int);
            match variable_error(scope, *raw) {
                None => {
                    &&& r.is_ok()
                    &&& r.unwrap()@ == variable_of(ncid, scope, *raw)
                    &&& forall|k: int|
                        0 <= k < raw.dimids@.len() ==> scope.contains(
                            #[trigger] r.unwrap()@.dimensions[k],
                        )
                },
                Some(e) => r.is_err() && r.unwrap_err() == e,
            }
        }),
{
    let attributes = get_attributes(ncid, raw.varid, &raw.attributes);
    let dimensions = match get_dimensions_of_var(&raw.dimids, nodes, g) {
        Ok(d) => d,
        Err(e) => {
            return Err(e);
        },
    };
    let name = name_from_buffer(raw.name.as_slice());
    Ok(Variable::new(name, ncid, raw.varid, raw.xtype, dimensions, attributes))
}

/// Builds the variables of the group `g`, whose handle is `ncid`, from the
/// engine's records, in the engine's order.
///
/// Fails with the error of the first record that is refused, and only if
/// one is.
pub(crate) fn get_variables(
    ncid: i32,
    raw: &Vec<RawVariable>,
    nodes: &Vec<GroupData>,
    g: usize,
) -> (r: Result<Vec<Variable>, Error>)
    requires
        tree_wf(group_views(nodes@)),
        g < nodes@.len(),
    ensures
        ({
            let scope = scope_dims(group_views(nodes@), g as int);
            match variables_error(scope, raw@) {
                None => {
                    &&& r.is_ok()
                    &&& variable_views(r.unwrap()@) == variables_of(ncid, scope, raw@)
                    &&& forall|v: int, k: int|
                        0 <= v < raw@.len() && 0 <= k < variables_of(
                            ncid,
                            scope,
                            raw@,
                        )[v].dimensions.len() ==> scope.contains(
                            #[trigger] variables_of(ncid, scope, raw@)[v].dimensions[k],
                        )
                },
                Some(e) => r.is_err() && r.unwrap_err() == e,
            }
        }),
{
    let ghost scope = scope_dims(group_views(nodes@), g as int);
    let mut variables: Vec<Variable> = Vec::new();
    let mut i: usize = 0;
    while i < raw.len()
        invariant
            i <= raw@.len(),
            variables@.len() == i,
            tree_wf(group_views(nodes@)),
            g < nodes@.len(),
            scope == scope_dims(group_views(nodes@), g as int),
            variables_error(scope, raw@) == variables_error_from(scope, raw@, i as int),
            forall|k: int|
                0 <= k < i ==> (#[trigger] variables@[k])@ == variable_of(ncid, scope, raw@[k]),
            forall|v: int, k: int|
                0 <= v < i && 0 <= k < variable_of(ncid, scope, raw@[v]).dimensions.len()
                    ==> scope.contains(#[trigger] variable_of(ncid, scope, raw@[v]).dimensions[k]),
        decreases raw@.len() - i,
    {
        match get_variable(ncid, &raw[i], nodes, g) {
            Ok(v) => {
                variables.push(v);
            },
            Err(e) => {
                return Err(e);
            },
        }
        i += 1;
    }
    assert(variable_views(variables@) =~= variables_of(ncid, scope, raw@));
    Ok(variables)
}

/// Builds the groups that the engine's record of one group describes, and
/// puts them at the end of the list: the group itself, under the parent at
/// `parent`, and after it all that is below it.
///
/// Reads the dimensions, the types, the variables, the attributes and then
/// the subgroups, and fails with the first error met.
pub(crate) fn build_group(
    raw: &RawGroup,
    name: String,
    parent: Option<usize>,
    nodes: &mut Vec<GroupData>,
) -> (r: Result<(), Error>)
    requires
        match parent {
            Some(p) => tree_wf(group_views(old(nodes)@)) && p < old(nodes)@.len(),
            None => old(nodes)@.len() == 0,
        },
    ensures
        ({
            let before = group_views(old(nodes)@);
            let inherited = scope_of(before, position(parent));
            match group_error(*raw, inherited) {
                None => {
                    &&& r.is_ok()
                    &&& group_views(final(nodes)@) == before + flatten(
                        *raw,
                        name@,
                        position(parent),
                        before.len() as int,
                        inherited,
                    )
                    &&& tree_wf(group_views(final(nodes)@))
                },
                Some(e) => r.is_err() && r.unwrap_err() == e,
            }
        }),
    decreases *raw,
{
    let ghost before = group_views(nodes@);
    let ghost inherited = scope_of(before, position(parent));
    let ghost scope = own_dims(*raw) + inherited;
    let at = nodes.len();
    let dimensions = get_group_dimensions(raw.grpid, &raw.dimensions, &raw.unlimited);
    let types = match get_types(raw.grpid, &raw.types) {
        Ok(t) => t,
        Err(e) => {
            return Err(e);
        },
    };
    nodes.push(GroupData::new(name, raw.grpid, parent, dimensions, types));
    let ghost started = group_views(nodes@);
    proof {
        assert(started =~= before.push(started[at as int]));
        assert(node_ok(started, at as int)) by {
            assert(dimension_views(dimensions@) == own_dims(*raw));
        }
        match parent {
            Some(p) => {
                lemma_tree_grows(before, started);
                lemma_scope_frame(before, started, p as int);
            },
            None => {},
        }
        assert(scope_dims(started, at as int) =~= scope);
    }
    let variables = match get_variables(raw.grpid, &raw.variables, nodes, at) {
        Ok(v) => v,
        Err(e) => {
            return Err(e);
        },
    };
    let attributes = get_attributes(raw.grpid, NC_GLOBAL, &raw.attributes);
    let kids = match get_groups(&raw.groups, at, nodes) {
        Ok(k) => k,
        Err(e) => {
            return Err(e);
        },
    };
    let ghost grown = group_views(nodes@);
    nodes[at].fill(variables, attributes, kids);
    proof {
        let done = group_views(nodes@);
        let full = node_of(*raw, name@, position(parent), at as int, inherited);
        assert(grown[at as int] == started[at as int]);
        assert(done[at as int] == full);
        assert(done =~= grown.update(at as int, full));
        assert(done =~= before + flatten(
            *raw,
            name@,
            position(parent),
            at as int,
            inherited,
        ));
        assert(children_ok(done, at as int));
        assert(variables_ok(done, at as int)) by {
            lemma_scope_frame(started, done, at as int);
        }
        lemma_tree_grows(grown, done);
    }
    Ok(())
}

/// Builds the groups that the engine's records describe as subgroups of
/// the group at `parent`, puts them at the end of the list, and returns
/// where each subgroup stands.
pub(crate) fn get_groups(raws: &Vec<RawGroup>, parent: usize, nodes: &mut Vec<GroupData>) -> (r:
    Result<Vec<usize>, Error>)
    requires
        tree_wf(group_views(old(nodes)@)),
        parent < old(nodes)@.len(),
    ensures
        ({
            let before = group_views(old(nodes)@);
            let inherited = scope_dims(before, parent as int);
            match forest_error(raws@, raws@.len(), inherited) {
                None => {
                    &&& r.is_ok()
                    &&& group_views(final(nodes)@) == before + flatten_forest(
                        raws@,
                        raws@.len(),
                        parent as int,
                        before.len() as int,
                        inherited,
                    )
                    &&& tree_wf(group_views(final(nodes)@))
                    &&& positions(r.unwrap()@) == child_positions(raws@, before.len() as int)
                    &&& forall|k: int|
                        0 <= k < raws@.len() ==> before.len() <= (#[trigger] r.unwrap()@[k])
                            < final(nodes)@.len() && group_views(
                            final(nodes)@,
                        )[r.unwrap()@[k] as int].parent == Some(parent as int)
                },
                Some(e) => r.is_err() && r.unwrap_err() == e,
            }
        }),
    decreases *raws,
{
    let ghost before = group_views(nodes@);
    let ghost inherited = scope_dims(before, parent as int);
    let ghost first = before.len() as int;
    let mut kids: Vec<usize> = Vec::new();
    let mut k: usize = 0;
    while k < raws.len()
        invariant
            k <= raws@.len(),
            kids@.len() == k,
            before == group_views(old(nodes)@),
            parent < before.len(),
            first == before.len(),
            inherited == scope_dims(before, parent as int),
            tree_wf(group_views(nodes@)),
            group_views(nodes@) == before + flatten_forest(
                raws@,
                k as nat,
                parent as int,
                first,
                inherited,
            ),
            forest_error(raws@, k as nat, inherited).is_none(),
            forall|j: int|
                0 <= j < k ==> (#[trigger] kids@[j]) == first + forest_size(raws@, j as nat),
            forall|j: int|
                0 <= j < k ==> first <= (#[trigger] kids@[j]) < nodes@.len() && group_views(
                    nodes@,
                )[kids@[j] as int].parent == Some(parent as int),
        decreases raws@.len() - k,
    {
        let ghost current = group_views(nodes@);
        let at = nodes.len();
        proof {
            lemma_flatten_forest_len(raws@, k as nat, parent as int, first, inherited);
            lemma_scope_frame(before, current, parent as int);
        }
        let name = name_from_buffer(raws[k].name.as_slice());
        match build_group(&raws[k], name, Some(parent), nodes) {
            Ok(()) => {},
            Err(e) => {
                proof {
                    assert(forest_error(raws@, (k + 1) as nat, inherited) == group_error(
                        raws@[k as int],
                        inherited,
                    ));
                    lemma_forest_error_stays(raws@, (k + 1) as nat, raws@.len(), inherited);
                }
                return Err(e);
            },
        }
        kids.push(at);
        proof {
            let added = flatten(
                raws@[k as int],
                buffer_name(raws@[k as int].name@),
                Some(parent as int),
                at as int,
                inherited,
            );
            lemma_flatten_len(
                raws@[k as int],
                buffer_name(raws@[k as int].name@),
                Some(parent as int),
                at as int,
                inherited,
            );
            assert(group_views(nodes@) =~= before + flatten_forest(
                raws@,
                (k + 1) as nat,
                parent as int,
                first,
                inherited,
            ));
            assert(group_views(nodes@)[at as int] == added[0]);
        }
        k += 1;
    }
    proof {
        assert(positions(kids@) =~= child_positions(raws@, first));
    }
    Ok(kids)
}

/// Mode of opening: for reading only.
pub const NC_NOWRITE: i32 = 0;

/// Mode of opening: for reading and writing.
pub const NC_WRITE: i32 = 1;

/// Mode of creating: overwrite what is there.
pub const NC_CLOBBER: i32 = 0;

/// Mode of creating: a container with groups and user-defined types.
pub const NC_NETCDF4: i32 = 4096;

/// An open container: the root of its tree of groups, and the handle under
/// which the storage engine knows it.
#[derive(Debug)]
pub struct File {
    ncid: i32,
    name: String,
    writable: bool,
    nodes: Vec<GroupData>,
}

/// What a [`File`] stands for.
pub struct FileView {
    /// Name of the container.
    pub name: Seq<char>,
    /// Handle of the container.
    pub ncid: i32,
    /// Whether the container was opened for writing.
    pub writable: bool,
    /// The groups, the root first and every group after its parent.
    pub groups: Seq<GroupView>,
}

impl View for File {
    type V = FileView;

    closed spec fn view(&self) -> FileView {
        FileView {
            name: self.name@,
            ncid: self.ncid,
            writable: self.writable,
            groups: group_views(self.nodes@),
        }
    }
}

/// The container with other groups in place of its own.
pub open spec fn with_groups(file: FileView, groups: Seq<GroupView>) -> FileView {
    FileView { groups, ..file }
}

/// Name of the root group of every container.
pub open spec fn root_name() -> Seq<char> {
    "root"@
}

/// The root of a container that was just created: a group without content.
pub open spec fn empty_root(ncid: i32) -> GroupView {
    GroupView {
        name: root_name(),
        ncid,
        parent: None,
        groups: Seq::empty(),
        dimensions: Seq::empty(),
        variables: Seq::empty(),
        attributes: Seq::empty(),
        types: Seq::empty(),
    }
}

/// The tree of groups that the engine's record of the root describes.
pub open spec fn tree_of(raw: RawGroup) -> Seq<GroupView> {
    flatten(raw, root_name(), None, 0, Seq::empty())
}

/// Why the engine's record of a container is refused, if it is.
pub open spec fn tree_error(raw: RawGroup) -> Option<Error> {
    group_error(raw, Seq::empty())
}

/// Why a container that the engine has opened can not be used, if it can
/// not: the engine failed to report it, or its report is refused.
pub open spec fn opening_error(report: Result<RawGroup, Error>) -> Option<Error> {
    match report {
        Ok(raw) => tree_error(raw),
        Err(e) => Some(e),
    }
}

/// What comes of a container that the engine has opened under the handle
/// `ncid`, given what was read of it: the container, or the reason why
/// there is none together with the request that closes the handle. A
/// handle whose container can not be used is not left open.
pub open spec fn opened_or_closed(
    name: Seq<char>,
    ncid: i32,
    writable: bool,
    report: Result<RawGroup, Error>,
) -> Result<FileView, (Error, RequestView)> {
    match opening_error(report) {
        None => Ok(
            FileView {
                name,
                ncid: report.unwrap().grpid,
                writable,
                groups: tree_of(report.unwrap()),
            },
        ),
        Some(e) => Err((e, RequestView::Close { ncid })),
    }
}

/// True when no byte of the path is NUL.
pub open spec fn valid_path(path: Seq<char>) -> bool {
    forall|i: int|
        0 <= i < vstd::utf8::encode_utf8(path).len() ==> vstd::utf8::encode_utf8(path)[i] != 0
}

/// Tells whether a path can be handed to the engine: whether no byte of it
/// is NUL.
pub fn is_valid_path(path: &str) -> (ok: bool)
    ensures
        ok == valid_path(path@),
{
    let bytes = path.as_bytes();
    let mut i: usize = 0;
    while i < bytes.len()
        invariant
            i <= bytes@.len(),
            bytes@ == vstd::utf8::encode_utf8(path@),
            forall|k: int| 0 <= k < i ==> bytes@[k] != 0,
        decreases bytes@.len() - i,
    {
        if bytes[i] == 0 {
            return false;
        }
        i += 1;
    }
    true
}

/// Builds the tree of groups of a container from what the engine reports
/// of its root and of all that is below it.
///
/// The root is named `root`, whatever the engine calls it. Fails with the
/// first error met, and only where there is one.
pub(crate) fn parse_file(raw: &RawGroup) -> (r: Result<Vec<GroupData>, Error>)
    ensures
        match tree_error(*raw) {
            None => r.is_ok() && group_views(r.unwrap()@) == tree_of(*raw) && tree_wf(
                group_views(r.unwrap()@),
            ),
            Some(e) => r.is_err() && r.unwrap_err() == e,
        },
{
    let mut nodes: Vec<GroupData> = Vec::new();
    let name = "root".to_owned();
    assert(group_views(nodes@) =~= Seq::empty());
    match build_group(raw, name, None, &mut nodes) {
        Ok(()) => {
            assert(group_views(nodes@) =~= tree_of(*raw));
            Ok(nodes)
        },
        Err(e) => Err(e),
    }
}

impl File {
    /// A container is well formed when its groups are a well-formed tree.
    pub open spec fn wf(&self) -> bool {
        tree_wf(self@.groups)
    }

    /// What is handed to the engine to open the container at `path` for
    /// reading only. A path that holds a NUL is refused with
    /// [`Error::InvalidName`], and only such a path.
    pub fn open_request(path: &str) -> (r: Result<Request, Error>)
        ensures
            valid_path(path@) ==> r.is_ok() && r.unwrap()@ == (RequestView::Open {
                path: path@,
                mode: NC_NOWRITE,
            }),
            !valid_path(path@) ==> r.is_err() && r.unwrap_err() == Error::InvalidName,
    {
        if !is_valid_path(path) {
            return Err(Error::InvalidName);
        }
        Ok(Request::Open { path: path.to_owned(), mode: NC_NOWRITE })
    }

    /// What is handed to the engine to open the container at `path` for
    /// reading and writing. The container must already exist.
    pub fn append_request(path: &str) -> (r: Result<Request, Error>)
        ensures
            valid_path(path@) ==> r.is_ok() && r.unwrap()@ == (RequestView::Open {
                path: path@,
                mode: NC_WRITE,
            }),
            !valid_path(path@) ==> r.is_err() && r.unwrap_err() == Error::InvalidName,
    {
        if !is_valid_path(path) {
            return Err(Error::InvalidName);
        }
        Ok(Request::Open { path: path.to_owned(), mode: NC_WRITE })
    }

    /// What is handed to the engine to create a container at `path`,
    /// overwriting what is there.
    pub fn create_request(path: &str) -> (r: Result<Request, Error>)
        ensures
            valid_path(path@) ==> r.is_ok() && r.unwrap()@ == (RequestView::Create {
                path: path@,
                mode: NC_NETCDF4 | NC_CLOBBER,
            }),
            !valid_path(path@) ==> r.is_err() && r.unwrap_err() == Error::InvalidName,
    {
        if !is_valid_path(path) {
            return Err(Error::InvalidName);
        }
        Ok(Request::Create { path: path.to_owned(), mode: NC_NETCDF4 | NC_CLOBBER })
    }

    /// The container that the engine has opened for reading only, built
    /// from what the engine reports of its root.
    ///
    /// Fails with the first error met in that report, and only where there
    /// is one.
    pub fn open(name: &str, raw: &RawGroup) -> (r: Result<File, Error>)
        ensures
            match tree_error(*raw) {
                None => r.is_ok() && r.unwrap().wf() && r.unwrap()@ == (FileView {
                    name: name@,
                    ncid: raw.grpid,
                    writable: false,
                    groups: tree_of(*raw),
                }),
                Some(e) => r.is_err() && r.unwrap_err() == e,
            },
    {
        match parse_file(raw) {
            Ok(nodes) => Ok(
                File { ncid: raw.grpid, name: name.to_owned(), writable: false, nodes },
            ),
            Err(e) => Err(e),
        }
    }

    /// The container that the engine has opened for reading and writing,
    /// built from what the engine reports of its root.
    pub fn append(name: &str, raw: &RawGroup) -> (r: Result<File, Error>)
        ensures
            match tree_error(*raw) {
                None => r.is_ok() && r.unwrap().wf() && r.unwrap()@ == (FileView {
                    name: name@,
                    ncid: raw.grpid,
                    writable: true,
                    groups: tree_of(*raw),
                }),
                Some(e) => r.is_err() && r.unwrap_err() == e,
            },
    {
        match parse_file(raw) {
            Ok(nodes) => Ok(File { ncid: raw.grpid, name: name.to_owned(), writable: true, nodes }),
            Err(e) => Err(e),
        }
    }

    /// Builds the container that the engine has opened, for reading only or
    /// for writing too, or says how to close it.
    fn built_or_close(name: &str, ncid: i32, writable: bool, report: &Result<RawGroup, Error>)
        -> (r: Result<File, (Error, Request)>)
        ensures
            match opened_or_closed(name@, ncid, writable, *report) {
                Ok(file) => r.is_ok() && r.unwrap().wf() && r.unwrap()@ == file,
                Err(refused) => r.is_err() && r.unwrap_err().0 == refused.0 && r.unwrap_err().1@
                    == refused.1,
            },
    {
        let built = match report {
            Ok(raw) => if writable {
                File::append(name, raw)
            } else {
                File::open(name, raw)
            },
            Err(e) => Err(*e),
        };
        match built {
            Ok(file) => Ok(file),
            Err(e) => Err((e, Request::Close { ncid })),
        }
    }

    /// The container that the engine has opened for reading only under the
    /// handle `ncid`, built from what was read of it; `report` is the
    /// engine's report of its root, or the error with which reading it
    /// failed.
    ///
    /// Where reading failed or the report is refused, there is no
    /// container: the error comes back together with the request that
    /// closes the handle, which is then to be made.
    pub fn open_or_close(name: &str, ncid: i32, report: &Result<RawGroup, Error>) -> (r: Result<
        File,
        (Error, Request),
    >)
        ensures
            match opened_or_closed(name@, ncid, false, *report) {
                Ok(file) => r.is_ok() && r.unwrap().wf() && r.unwrap()@ == file,
                Err(refused) => r.is_err() && r.unwrap_err().0 == refused.0 && r.unwrap_err().1@
                    == refused.1,
            },
    {
        Self::built_or_close(name, ncid, false, report)
    }

    /// The container that the engine has opened for reading and writing
    /// under the handle `ncid`, as [`File::open_or_close`] gives the one
    /// opened for reading.
    pub fn append_or_close(name: &str, ncid: i32, report: &Result<RawGroup, Error>) -> (r: Result<
        File,
        (Error, Request),
    >)
        ensures
            match opened_or_closed(name@, ncid, true, *report) {
                Ok(file) => r.is_ok() && r.unwrap().wf() && r.unwrap()@ == file,
                Err(refused) => r.is_err() && r.unwrap_err().0 == refused.0 && r.unwrap_err().1@
                    == refused.1,
            },
    {
        Self::built_or_close(name, ncid, true, report)
    }

    /// The container that the engine has just created under the handle
    /// `ncid`: a root group and nothing in it.
    pub fn create(name: &str, ncid: i32) -> (f: File)
        ensures
            f.wf(),
            f@ == (FileView {
                name: name@,
                ncid,
                writable: true,
                groups: seq![empty_root(ncid)],
            }),
    {
        let mut nodes: Vec<GroupData> = Vec::new();
        nodes.push(GroupData::new("root".to_owned(), ncid, None, Vec::new(), Vec::new()));
        let f = File { ncid, name: name.to_owned(), writable: true, nodes };
        proof {
            assert(f@.groups[0].dimensions =~= Seq::empty());
            assert(f@.groups[0].types =~= Seq::empty());
            assert(f@.groups =~= seq![empty_root(ncid)]);
            assert(node_ok(f@.groups, 0));
        }
        f
    }

    /// Ends the use of the container: what is handed to the engine to close
    /// it. The container is given up, so it is closed once and not used
    /// after.
    pub fn close(self) -> (r: Request)
        ensures
            r@ == (RequestView::Close { ncid: self@.ncid }),
    {
        Request::Close { ncid: self.ncid }
    }

    /// Main entrypoint for interacting with the container: the view for
    /// reading of its root group.
    pub fn root(&self) -> (g: Group<'_>)
        requires
            self.wf(),
        ensures
            g.wf(),
            g.container() == self@,
            g.at() == 0,
    {
        Group::new(self, 0)
    }

    /// Mutable access to the root group
    pub fn root_mut(&mut self) -> (g: GroupMut<'_>)
        requires
            old(self).wf(),
        ensures
            g.wf(),
            g.container() == old(self)@,
            g.at() == 0,
            *final(self) == *final(g.file),
    {
        GroupMut { file: self, index: 0 }
    }

    /// Get a variable from the root group, as [`Group::variable`] does.
    pub fn variable(&self, name: &str) -> (r: Result<Option<&Variable>, Error>)
        requires
            self.wf(),
        ensures
            !valid_name(name@) ==> r.is_err() && r.unwrap_err() == Error::InvalidName,
            valid_name(name@) ==> r.is_ok() && ({
                let at = name_index(variable_names(self@.groups[0].variables), name@);
                match r.unwrap() {
                    Some(v) => at < self@.groups[0].variables.len() && v@
                        == self@.groups[0].variables[at],
                    None => at == self@.groups[0].variables.len(),
                }
            }),
    {
        self.root().variable(name)
    }

    /// All variables of the root group, in the order of the engine.
    pub fn variables(&self) -> (r: &Vec<Variable>)
        requires
            self.wf(),
        ensures
            variable_views(r@) == self@.groups[0].variables,
    {
        self.root().variables()
    }

    /// Get a single attribute of the root group, as [`Group::attribute`]
    /// does.
    pub fn attribute(&self, name: &str) -> (r: Result<Option<&Attribute>, Error>)
        requires
            self.wf(),
        ensures
            !valid_name(name@) ==> r.is_err() && r.unwrap_err() == Error::InvalidName,
            valid_name(name@) ==> r.is_ok() && ({
                let at = name_index(attribute_names(self@.groups[0].attributes), name@);
                match r.unwrap() {
                    Some(a) => at < self@.groups[0].attributes.len() && a@
                        == self@.groups[0].attributes[at],
                    None => at == self@.groups[0].attributes.len(),
                }
            }),
    {
        self.root().attribute(name)
    }

    /// All attributes of the root group, in the order of the engine.
    pub fn attributes(&self) -> (r: &Vec<Attribute>)
        requires
            self.wf(),
        ensures
            attribute_views(r@) == self@.groups[0].attributes,
    {
        self.root().attributes()
    }

    /// Get a single dimension of the root group. The root has no parent, so
    /// only what it defines itself is found.
    pub fn dimension(&self, name: &str) -> (r: Result<Option<&Dimension>, Error>)
        requires
            self.wf(),
        ensures
            !valid_name(name@) ==> r.is_err() && r.unwrap_err() == Error::InvalidName,
            valid_name(name@) ==> r.is_ok() && ({
                let found = resolve_in(scope_dims(self@.groups, 0), KeyView::Name(name@));
                match r.unwrap() {
                    Some(d) => found == Some(d@),
                    None => found.is_none(),
                }
            }),
    {
        self.root().dimension(name)
    }

    /// The dimensions that the root group defines, in the order of the
    /// engine.
    pub fn dimensions(&self) -> (r: &Vec<Dimension>)
        requires
            self.wf(),
        ensures
            dimension_views(r@) == self@.groups[0].dimensions,
    {
        self.root().dimensions()
    }

    /// Get a subgroup of the root group, as [`Group::group`] does.
    pub fn group(&self, name: &str) -> (r: Result<Option<Group<'_>>, Error>)
        requires
            self.wf(),
        ensures
            !valid_name(name@) ==> r.is_err() && r.unwrap_err() == Error::InvalidName,
            valid_name(name@) ==> r.is_ok() && (match r.unwrap() {
                Some(g) => g.wf() && g.container() == self@ && child_named(self@.groups, 0, name@)
                    == Some(g.at()),
                None => child_named(self@.groups, 0, name@).is_none(),
            }),
    {
        self.root().group(name)
    }

    /// All subgroups of the root group, in the order of the engine.
    pub fn groups(&self) -> (r: Vec<Group<'_>>)
        requires
            self.wf(),
        ensures
            r@.len() == self@.groups[0].groups.len(),
            forall|k: int|
                0 <= k < r@.len() ==> (#[trigger] r@[k]).wf() && r@[k].container() == self@
                    && r@[k].at() == self@.groups[0].groups[k],
    {
        self.root().groups()
    }

    /// Current name of the file. This name sometimes gives the name
    /// of the file used to open it, or some arbitrary name when
    /// opened through a memory buffer
    pub fn name(&self) -> (r: &str)
        ensures
            r@ == self@.name,
    {
        self.name.as_str()
    }

    /// Handle under which the engine knows the container.
    pub fn ncid(&self) -> (r: i32)
        ensures
            r == self@.ncid,
    {
        self.ncid
    }

    /// Whether the container was opened for writing.
    pub fn is_writable(&self) -> (r: bool)
        ensures
            r == self@.writable,
    {
        self.writable
    }

    /// The groups of the container.
    pub(crate) fn nodes(&self) -> (r: &Vec<GroupData>)
        ensures
            group_views(r@) == self@.groups,
    {
        &self.nodes
    }

    /// Puts a dimension at the end of those of the group at `g`.
    pub(crate) fn push_dimension(&mut self, g: usize, d: Dimension)
        requires
            old(self).wf(),
            g < old(self)@.groups.len(),
            dimension_wf(d@),
        ensures
            final(self).wf(),
            final(self)@ == with_groups(
                old(self)@,
                with_dimension(old(self)@.groups, g as int, d@),
            ),
    {
        let ghost before = self@.groups;
        self.nodes[g].push_dimension(d);
        proof {
            let after = self@.groups;
            assert(after =~= before.update(g as int, after[g as int]));
            assert(node_ok(before, g as int));
            assert(dimensions_ok(after, g as int));
            lemma_tree_grows(before, after);
        }
    }

    /// Puts a variable at the end of those of the group at `g`.
    pub(crate) fn push_variable(&mut self, g: usize, v: Variable)
        requires
            old(self).wf(),
            g < old(self)@.groups.len(),
            forall|k: int|
                0 <= k < v@.dimensions.len() ==> scope_dims(old(self)@.groups, g as int).contains(
                    #[trigger] v@.dimensions[k],
                ),
        ensures
            final(self).wf(),
            final(self)@ == with_groups(
                old(self)@,
                with_variable(old(self)@.groups, g as int, v@),
            ),
    {
        let ghost before = self@.groups;
        self.nodes[g].push_variable(v);
        proof {
            let after = self@.groups;
            assert(after =~= before.update(g as int, after[g as int]));
            assert(node_ok(before, g as int));
            lemma_scope_frame(before, after, g as int);
            assert(variables_ok(after, g as int));
            lemma_tree_grows(before, after);
        }
    }

    /// Puts an attribute on the group at `g`.
    pub(crate) fn put_group_attribute(&mut self, g: usize, attr: Attribute)
        requires
            old(self).wf(),
            g < old(self)@.groups.len(),
        ensures
            final(self).wf(),
            final(self)@ == with_groups(
                old(self)@,
                with_group_attribute(old(self)@.groups, g as int, attr@),
            ),
    {
        let ghost before = self@.groups;
        self.nodes[g].put_attribute(attr);
        proof {
            let after = self@.groups;
            assert(after =~= before.update(g as int, after[g as int]));
            lemma_tree_grows(before, after);
        }
    }

    /// Puts an attribute on the variable at `v` of the group at `g`.
    pub(crate) fn put_variable_attribute(&mut self, g: usize, v: usize, attr: Attribute)
        requires
            old(self).wf(),
            g < old(self)@.groups.len(),
            v < old(self)@.groups[g as int].variables.len(),
        ensures
            final(self).wf(),
            final(self)@ == with_groups(
                old(self)@,
                with_variable_attribute(old(self)@.groups, g as int, v as int, attr@),
            ),
    {
        let ghost before = self@.groups;
        self.nodes[g].put_variable_attribute(v, attr);
        proof {
            let after = self@.groups;
            assert(after =~= before.update(g as int, after[g as int]));
            assert(node_ok(before, g as int));
            lemma_scope_frame(before, after, g as int);
            assert(variables_ok(after, g as int)) by {
                assert forall|w: int, k: int|
                    0 <= w < after[g as int].variables.len() && 0 <= k
                        < after[g as int].variables[w].dimensions.len() implies scope_dims(
                    after,
                    g as int,
                ).contains(#[trigger] after[g as int].variables[w].dimensions[k]) by {
                    assert(after[g as int].variables[w].dimensions == before[g
                        as int].variables[w].dimensions);
                }
            }
            lemma_tree_grows(before, after);
        }
    }

    /// Puts a new group without content at the end of the list, as a
    /// subgroup of the group at `parent`, and returns where it stands.
    pub(crate) fn push_group(&mut self, parent: usize, name: String, ncid: i32) -> (child: usize)
        requires
            old(self).wf(),
            parent < old(self)@.groups.len(),
        ensures
            final(self).wf(),
            child == old(self)@.groups.len(),
            final(self)@ == with_groups(
                old(self)@,
                with_group(
                    old(self)@.groups,
                    parent as int,
                    empty_group(name@, ncid, parent as int),
                ),
            ),
    {
        let ghost before = self@.groups;
        let child = self.nodes.len();
        let node = GroupData::new(name, ncid, Some(parent), Vec::new(), Vec::new());
        proof {
            assert(node@.dimensions =~= Seq::empty());
            assert(node@.types =~= Seq::empty());
        }
        self.nodes.push(node);
        self.nodes[parent].push_child(child);
        proof {
            let after = self@.groups;
            assert(after =~= before.update(parent as int, after[parent as int]).push(node@));
            assert(node_ok(before, parent as int));
            assert(children_ok(after, parent as int));
            assert(node_ok(after, child as int));
            lemma_tree_grows(before, after);
        }
        child
    }
}

/// A container that lies in memory. The bytes are kept borrowed for as long
/// as the container is in use.
///
/// Access the [`File`] through [`MemFile::file`].
#[derive(Debug)]
pub struct MemFile<'a> {
    file: File,
    buffer: &'a [u8],
}

impl<'a> MemFile<'a> {
    /// The container.
    pub closed spec fn inner(&self) -> File {
        self.file
    }

    /// The bytes that the container lies in.
    pub closed spec fn bytes(&self) -> Seq<u8> {
        self.buffer@
    }

    /// What is handed to the engine to open the container that lies in
    /// `mem`, for reading only. Where no name is given, the engine is told
    /// `/`.
    pub fn open_request(name: Option<&str>, mem: &[u8]) -> (r: Result<Request, Error>)
        ensures
            ({
                let path = match name {
                    Some(n) => n@,
                    None => "/"@,
                };
                if valid_path(path) {
                    r.is_ok() && r.unwrap()@ == (RequestView::OpenMemory {
                        path,
                        mode: NC_NOWRITE,
                        size: mem@.len() as usize,
                    })
                } else {
                    r.is_err() && r.unwrap_err() == Error::InvalidName
                }
            }),
    {
        let path = match name {
            Some(n) => n,
            None => "/",
        };
        if !is_valid_path(path) {
            return Err(Error::InvalidName);
        }
        Ok(Request::OpenMemory { path: path.to_owned(), mode: NC_NOWRITE, size: mem.len() })
    }

    /// Open a file from the given buffer
    ///
    /// `raw` is what the engine reports of the root of the container that
    /// it has opened in `mem`. Where no name is given, the container has
    /// the empty name.
    pub fn new(name: Option<&str>, mem: &'a [u8], raw: &RawGroup) -> (r: Result<
        MemFile<'a>,
        Error,
    >)
        ensures
            match tree_error(*raw) {
                None => r.is_ok() && r.unwrap().inner().wf() && r.unwrap().bytes() == mem@
                    && r.unwrap().inner()@ == (FileView {
                    name: match name {
                        Some(n) => n@,
                        None => ""@,
                    },
                    ncid: raw.grpid,
                    writable: false,
                    groups: tree_of(*raw),
                }),
                Some(e) => r.is_err() && r.unwrap_err() == e,
            },
    {
        let name = match name {
            Some(n) => n,
            None => "",
        };
        match File::open(name, raw) {
            Ok(file) => Ok(MemFile { file, buffer: mem }),
            Err(e) => Err(e),
        }
    }

    /// Open a file from the given buffer, or say how to close it: as
    /// [`MemFile::new`], for a container that the engine has opened under
    /// the handle `ncid` and of which `report` is what was read.
    pub fn new_or_close(
        name: Option<&str>,
        mem: &'a [u8],
        ncid: i32,
        report: &Result<RawGroup, Error>,
    ) -> (r: Result<MemFile<'a>, (Error, Request)>)
        ensures
            ({
                let held = match name {
                    Some(n) => n@,
                    None => ""@,
                };
                match opened_or_closed(held, ncid, false, *report) {
                    Ok(file) => r.is_ok() && r.unwrap().inner().wf() && r.unwrap().bytes() == mem@
                        && r.unwrap().inner()@ == file,
                    Err(refused) => r.is_err() && r.unwrap_err().0 == refused.0
                        && r.unwrap_err().1@ == refused.1,
                }
            }),
    {
        let name = match name {
            Some(n) => n,
            None => "",
        };
        match File::open_or_close(name, ncid, report) {
            Ok(file) => Ok(MemFile { file, buffer: mem }),
            Err(refused) => Err(refused),
        }
    }

    /// The container, for reading.
    pub fn file(&self) -> (f: &File)
        ensures
            *f == self.inner(),
    {
        &self.file
    }

    /// Ends the use of the container: what is handed to the engine to
    /// close it. The bytes are free again.
    pub fn close(self) -> (r: Request)
        ensures
            r@ == (RequestView::Close { ncid: self.inner()@.ncid }),
    {
        self.file.close()
    }
}

} // verus!
