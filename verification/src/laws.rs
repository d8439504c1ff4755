//! What holds of the tree of groups, whatever is done to it: what a group
//! sees, and what a definition leaves behind.

use vstd::prelude::*;
use crate::attribute::{
    attribute_names, lemma_put_attribute, with_group_attribute, with_variable_attribute,
    AttributeView,
};
use crate::dimension::{
    current_len, dimension_defined, dimension_names, key_matches, lemma_key_index,
    lemma_key_index_is, lemma_resolve_in_concat, resolve_in, with_dimension, DimensionView,
    KeyView,
};
use crate::error::{error_of_status, Error, NC_NOERR};
use crate::file::empty_root;
use crate::group::{child_named, child_names, group_defined, with_group};
use crate::tree::{node_ok, scope_dims, tree_wf, GroupView};
use crate::utils::{
    lemma_name_index, lemma_name_index_push, lemma_push_keeps_distinct, names_distinct,
    valid_name,
};
use crate::variable::{
    dims_of_names, name_error, names_error, names_error_from, variable_defined,
    variable_from_names, variable_names, variable_refused, with_variable, VariableView,
};

verus! {

/// True when the group at `a` is the group at `g` or one of its ancestors.
pub open spec fn on_path(groups: Seq<GroupView>, a: int, g: int) -> bool
    decreases g,
{
    if g < 0 || g >= groups.len() {
        false
    } else if a == g {
        true
    } else {
        match groups[g].parent {
            Some(p) => 0 <= p < g && on_path(groups, a, p),
            None => false,
        }
    }
}

/// An ancestor stands before its descendants in the list of groups: no
/// subgroup, and nothing below one, is on the way from a group to the root.
pub proof fn lemma_path_goes_up(groups: Seq<GroupView>, a: int, g: int)
    requires
        on_path(groups, a, g),
    ensures
        0 <= a <= g < groups.len(),
    decreases g,
{
    if a != g {
        lemma_path_goes_up(groups, a, groups[g].parent.unwrap());
    }
}

/// A group sees exactly the dimensions that it or one of its ancestors
/// defines: those, and no others.
pub proof fn lemma_scope_is_path(groups: Seq<GroupView>, g: int, d: DimensionView)
    requires
        0 <= g < groups.len(),
    ensures
        scope_dims(groups, g).contains(d) <==> exists|a: int|
            on_path(groups, a, g) && (#[trigger] groups[a]).dimensions.contains(d),
    decreases g,
{
    let own = groups[g].dimensions;
    let up = match groups[g].parent {
        Some(p) => if 0 <= p < g {
            scope_dims(groups, p)
        } else {
            Seq::empty()
        },
        None => Seq::empty(),
    };
    assert(scope_dims(groups, g) == own + up);
    match groups[g].parent {
        Some(p) => {
            if 0 <= p < g {
                lemma_scope_is_path(groups, p, d);
            }
        },
        None => {},
    }
    if scope_dims(groups, g).contains(d) {
        let at = choose|i: int| 0 <= i < (own + up).len() && (own + up)[i] == d;
        if at < own.len() {
            assert(own[at] == d);
            assert(on_path(groups, g, g) && groups[g].dimensions.contains(d));
        } else {
            assert(up[at - own.len()] == d);
            let p = groups[g].parent.unwrap();
            let a = choose|a: int|
                on_path(groups, a, p) && (#[trigger] groups[a]).dimensions.contains(d);
            assert(on_path(groups, a, g)) by {
                lemma_path_goes_up(groups, a, p);
            }
        }
    }
    if exists|a: int| on_path(groups, a, g) && (#[trigger] groups[a]).dimensions.contains(d) {
        let a = choose|a: int|
            on_path(groups, a, g) && (#[trigger] groups[a]).dimensions.contains(d);
        if a == g {
            let at = choose|i: int| 0 <= i < own.len() && own[i] == d;
            assert((own + up)[at] == d);
        } else {
            let p = groups[g].parent.unwrap();
            assert(on_path(groups, a, p));
            let at = choose|i: int| 0 <= i < up.len() && up[i] == d;
            assert((own + up)[own.len() + at] == d);
        }
    }
}

/// The root sees its own dimensions and no others: what only a subgroup
/// defines is not found from the root.
pub proof fn lemma_root_sees_its_own(groups: Seq<GroupView>, key: KeyView)
    requires
        tree_wf(groups),
    ensures
        scope_dims(groups, 0) == groups[0].dimensions,
        resolve_in(scope_dims(groups, 0), key) == resolve_in(groups[0].dimensions, key),
        (forall|k: int|
            0 <= k < groups[0].dimensions.len() ==> !key_matches(
                #[trigger] groups[0].dimensions[k],
                key,
            )) ==> resolve_in(scope_dims(groups, 0), key).is_none(),
{
    assert(node_ok(groups, 0));
    assert(scope_dims(groups, 0) =~= groups[0].dimensions);
    lemma_key_index(groups[0].dimensions, key);
}

/// What a group sees depends on the groups on its way to the root alone:
/// two lists of groups that agree on those give it the same scope.
pub proof fn lemma_scope_of_path(a: Seq<GroupView>, b: Seq<GroupView>, g: int)
    requires
        0 <= g < a.len(),
        a.len() == b.len(),
        forall|i: int|
            on_path(a, i, g) ==> (#[trigger] a[i]).parent == b[i].parent && a[i].dimensions
                == b[i].dimensions,
    ensures
        scope_dims(a, g) == scope_dims(b, g),
    decreases g,
{
    assert(on_path(a, g, g));
    match a[g].parent {
        Some(p) => {
            if 0 <= p < g {
                assert forall|i: int| on_path(a, i, p) implies (#[trigger] a[i]).parent
                    == b[i].parent && a[i].dimensions == b[i].dimensions by {
                    lemma_path_goes_up(a, i, p);
                    assert(on_path(a, i, g));
                }
                lemma_scope_of_path(a, b, p);
            }
        },
        None => {},
    }
}

/// A dimension is seen from below only: after a dimension was added to a
/// group, every group that is neither that group nor below it sees what it
/// saw before, and finds by any key what it found before. So what only a
/// subgroup defines is found neither from its parent nor from a group
/// beside it.
pub proof fn lemma_added_dimension_is_hidden_from_above(
    groups: Seq<GroupView>,
    g: int,
    name: Seq<char>,
    len: usize,
    status: i32,
    dimid: i32,
    other: int,
    key: KeyView,
)
    requires
        tree_wf(groups),
        0 <= g < groups.len(),
        0 <= other < groups.len(),
        !on_path(groups, g, other),
        dimension_defined(groups, g, name, len, status, dimid).is_ok(),
    ensures
        ({
            let d = dimension_defined(groups, g, name, len, status, dimid).unwrap();
            let after = with_dimension(groups, g, d);
            &&& scope_dims(after, other) == scope_dims(groups, other)
            &&& resolve_in(scope_dims(after, other), key) == resolve_in(
                scope_dims(groups, other),
                key,
            )
        }),
{
    let d = dimension_defined(groups, g, name, len, status, dimid).unwrap();
    let after = with_dimension(groups, g, d);
    assert forall|i: int| on_path(groups, i, other) implies (#[trigger] groups[i]).parent
        == after[i].parent && groups[i].dimensions == after[i].dimensions by {
        lemma_path_goes_up(groups, i, other);
        assert(i != g);
    }
    lemma_scope_of_path(groups, after, other);
}

/// A group finds what it defines itself; what it does not define it finds
/// as its parent does. So a dimension of an ancestor is seen from every
/// group below it that no nearer definition hides it from.
pub proof fn lemma_resolve_through_parent(groups: Seq<GroupView>, g: int, key: KeyView)
    requires
        tree_wf(groups),
        0 <= g < groups.len(),
    ensures
        resolve_in(groups[g].dimensions, key).is_some() ==> resolve_in(scope_dims(groups, g), key)
            == resolve_in(groups[g].dimensions, key),
        resolve_in(groups[g].dimensions, key).is_none() ==> resolve_in(scope_dims(groups, g), key)
            == (match groups[g].parent {
            Some(p) => resolve_in(scope_dims(groups, p), key),
            None => None,
        }),
{
    assert(node_ok(groups, g));
    let up = match groups[g].parent {
        Some(p) => scope_dims(groups, p),
        None => Seq::empty(),
    };
    assert(scope_dims(groups, g) == groups[g].dimensions + up);
    lemma_resolve_in_concat(groups[g].dimensions, up, key);
    lemma_key_index(Seq::<DimensionView>::empty(), key);
}

/// A variable of a group can be shaped by a dimension that only an
/// ancestor defines: defined with the name of a dimension that the group
/// does not define and its parent sees, the variable gets that dimension,
/// with the identifier that the ancestor gave it.
pub proof fn lemma_variable_takes_inherited_dimension(
    groups: Seq<GroupView>,
    g: int,
    name: Seq<char>,
    xtype: i32,
    dim: Seq<char>,
    varid: i32,
)
    requires
        tree_wf(groups),
        0 <= g < groups.len(),
        groups[g].parent.is_some(),
        variable_refused(groups, g, name).is_none(),
        valid_name(dim),
        resolve_in(groups[g].dimensions, KeyView::Name(dim)).is_none(),
        resolve_in(scope_dims(groups, groups[g].parent.unwrap()), KeyView::Name(dim)).is_some(),
    ensures
        variable_from_names(groups, g, name, xtype, seq![dim], NC_NOERR, varid) == Ok::<
            VariableView,
            Error,
        >(
            VariableView {
                name,
                ncid: groups[g].ncid,
                varid,
                vartype: xtype,
                dimensions: seq![
                    resolve_in(
                        scope_dims(groups, groups[g].parent.unwrap()),
                        KeyView::Name(dim),
                    ).unwrap(),
                ],
                attributes: Seq::empty(),
            },
        ),
{
    let scope = scope_dims(groups, g);
    let names = seq![dim];
    lemma_resolve_through_parent(groups, g, KeyView::Name(dim));
    assert(name_error(scope, names[0]).is_none());
    assert(names_error_from(scope, names, 1).is_none());
    assert(names_error(scope, names).is_none());
    assert(dims_of_names(scope, names) =~= seq![
        resolve_in(scope_dims(groups, groups[g].parent.unwrap()), KeyView::Name(dim)).unwrap(),
    ]);
}

/// After a group was added and recorded, it is found by its name among the
/// subgroups of its parent, and it is empty: no dimensions, no variables,
/// no attributes, no subgroups.
pub proof fn lemma_added_group_is_found(
    groups: Seq<GroupView>,
    g: int,
    name: Seq<char>,
    status: i32,
    grpid: i32,
)
    requires
        tree_wf(groups),
        0 <= g < groups.len(),
        group_defined(groups, g, name, status, grpid).is_ok(),
    ensures
        ({
            let node = group_defined(groups, g, name, status, grpid).unwrap();
            let after = with_group(groups, g, node);
            &&& child_named(after, g, name) == Some(groups.len() as int)
            &&& after[groups.len() as int] == node
            &&& node.name == name
            &&& node.dimensions.len() == 0
            &&& node.variables.len() == 0
            &&& node.attributes.len() == 0
            &&& node.groups.len() == 0
        }),
{
    let node = group_defined(groups, g, name, status, grpid).unwrap();
    let after = with_group(groups, g, node);
    let before_names = child_names(groups, g);
    assert(node_ok(groups, g));
    assert(child_names(after, g) =~= before_names.push(name)) by {
        assert forall|k: int| 0 <= k < before_names.len() implies child_names(after, g)[k]
            == before_names[k] by {
            let c = groups[g].groups[k];
            assert(g < c < groups.len());
        }
    }
    lemma_name_index(before_names, name);
    lemma_name_index_push(before_names, name, name);
}

/// After a dimension was added and recorded, the group finds it by its
/// name: fixed and of the given length where that is positive, whatever
/// the engine answers; growing where the length given was zero, its length
/// then being what the engine answers, and the engine's failure where it
/// fails.
pub proof fn lemma_added_dimension_is_found(
    groups: Seq<GroupView>,
    g: int,
    name: Seq<char>,
    len: usize,
    status: i32,
    dimid: i32,
)
    requires
        tree_wf(groups),
        0 <= g < groups.len(),
        dimension_defined(groups, g, name, len, status, dimid).is_ok(),
    ensures
        ({
            let d = dimension_defined(groups, g, name, len, status, dimid).unwrap();
            let after = with_dimension(groups, g, d);
            &&& resolve_in(scope_dims(after, g), KeyView::Name(name)) == Some(d)
            &&& d.name == name
            &&& len > 0 ==> d.len == Some(len)
            &&& len > 0 ==> forall|s: i32, answer: usize|
                current_len(d, s, answer) == Ok::<usize, Error>(len)
            &&& len == 0 ==> d.len.is_none()
            &&& len == 0 ==> forall|answer: usize|
                current_len(d, NC_NOERR, answer) == Ok::<usize, Error>(answer)
            &&& len == 0 ==> forall|s: i32, answer: usize|
                s != NC_NOERR ==> current_len(d, s, answer) == Err::<usize, Error>(
                    error_of_status(s),
                )
        }),
{
    let d = dimension_defined(groups, g, name, len, status, dimid).unwrap();
    let after = with_dimension(groups, g, d);
    let own = groups[g].dimensions;
    let key = KeyView::Name(name);
    assert(node_ok(groups, g));
    lemma_name_index(dimension_names(own), name);
    assert forall|i: int| 0 <= i < own.len() implies !key_matches(own.push(d)[i], key) by {
        assert(dimension_names(own)[i] == own[i].name);
    }
    lemma_key_index_is(own.push(d), key, own.len() as int);
    let up = match after[g].parent {
        Some(p) => scope_dims(after, p),
        None => Seq::empty(),
    };
    assert(scope_dims(after, g) == own.push(d) + up);
    lemma_resolve_in_concat(own.push(d), up, key);
}

/// A name is taken once: after a dimension was added and recorded, another
/// of the same name in the same group is refused, whatever its length and
/// whatever the engine answers, and the names of the dimensions of a group
/// stay distinct if they were.
pub proof fn lemma_second_dimension_is_refused(
    groups: Seq<GroupView>,
    g: int,
    name: Seq<char>,
    len: usize,
    status: i32,
    dimid: i32,
    again_len: usize,
    again_status: i32,
    again_dimid: i32,
)
    requires
        tree_wf(groups),
        0 <= g < groups.len(),
        dimension_defined(groups, g, name, len, status, dimid).is_ok(),
    ensures
        ({
            let d = dimension_defined(groups, g, name, len, status, dimid).unwrap();
            let after = with_dimension(groups, g, d);
            &&& dimension_defined(after, g, name, again_len, again_status, again_dimid) == Err::<
                DimensionView,
                Error,
            >(Error::AlreadyExists)
            &&& names_distinct(dimension_names(groups[g].dimensions)) ==> names_distinct(
                dimension_names(after[g].dimensions),
            )
        }),
{
    let d = dimension_defined(groups, g, name, len, status, dimid).unwrap();
    let after = with_dimension(groups, g, d);
    let names = dimension_names(groups[g].dimensions);
    assert(dimension_names(after[g].dimensions) =~= names.push(name));
    lemma_name_index(names, name);
    lemma_name_index_push(names, name, name);
}

/// In the group at `g` no name is used twice for things of one kind: not
/// for two dimensions, two variables, two subgroups, two attributes of the
/// group, or two attributes of one variable.
pub open spec fn scope_names_distinct(groups: Seq<GroupView>, g: int) -> bool {
    &&& names_distinct(dimension_names(groups[g].dimensions))
    &&& names_distinct(variable_names(groups[g].variables))
    &&& names_distinct(child_names(groups, g))
    &&& names_distinct(attribute_names(groups[g].attributes))
    &&& forall|v: int|
        0 <= v < groups[g].variables.len() ==> names_distinct(
            attribute_names(#[trigger] groups[g].variables[v].attributes),
        )
}

/// In no group of the container a name is used twice for things of one
/// kind.
pub open spec fn names_unique(groups: Seq<GroupView>) -> bool {
    forall|g: int| 0 <= g < groups.len() ==> scope_names_distinct(groups, g)
}

/// The names of the subgroups of a group depend on the lists of subgroups
/// and on the names of the groups alone.
proof fn lemma_child_names_kept(groups: Seq<GroupView>, after: Seq<GroupView>, h: int)
    requires
        tree_wf(groups),
        0 <= h < groups.len(),
        after.len() == groups.len(),
        forall|i: int|
            0 <= i < groups.len() ==> (#[trigger] after[i]).name == groups[i].name
                && after[i].groups == groups[i].groups,
    ensures
        child_names(after, h) == child_names(groups, h),
{
    assert(node_ok(groups, h));
    assert forall|k: int| 0 <= k < groups[h].groups.len() implies child_names(after, h)[k]
        == child_names(groups, h)[k] by {
        let c = groups[h].groups[k];
        assert(h < c < groups.len());
    }
    assert(child_names(after, h) =~= child_names(groups, h));
}

/// A container that was just created uses no name twice.
pub proof fn lemma_created_names_unique(ncid: i32)
    ensures
        names_unique(seq![empty_root(ncid)]),
{
    let groups = seq![empty_root(ncid)];
    assert forall|g: int| 0 <= g < groups.len() implies scope_names_distinct(groups, g) by {
        assert(dimension_names(groups[g].dimensions) =~= Seq::empty());
        assert(variable_names(groups[g].variables) =~= Seq::empty());
        assert(child_names(groups, g) =~= Seq::empty());
        assert(attribute_names(groups[g].attributes) =~= Seq::empty());
    }
}

/// Adding a dimension uses no name twice, if none was used twice before.
pub proof fn lemma_dimension_keeps_names_unique(
    groups: Seq<GroupView>,
    g: int,
    name: Seq<char>,
    len: usize,
    status: i32,
    dimid: i32,
)
    requires
        tree_wf(groups),
        names_unique(groups),
        0 <= g < groups.len(),
        dimension_defined(groups, g, name, len, status, dimid).is_ok(),
    ensures
        names_unique(
            with_dimension(
                groups,
                g,
                dimension_defined(groups, g, name, len, status, dimid).unwrap(),
            ),
        ),
{
    let d = dimension_defined(groups, g, name, len, status, dimid).unwrap();
    let after = with_dimension(groups, g, d);
    assert forall|h: int| 0 <= h < after.len() implies scope_names_distinct(after, h) by {
        assert(scope_names_distinct(groups, h));
        lemma_child_names_kept(groups, after, h);
        if h == g {
            let names = dimension_names(groups[g].dimensions);
            assert(dimension_names(after[g].dimensions) =~= names.push(name));
            lemma_name_index(names, name);
            lemma_push_keeps_distinct(names, name);
        }
    }
}

/// Adding a variable uses no name twice, if none was used twice before.
pub proof fn lemma_variable_keeps_names_unique(
    groups: Seq<GroupView>,
    g: int,
    name: Seq<char>,
    xtype: i32,
    dims: Seq<DimensionView>,
    status: i32,
    varid: i32,
)
    requires
        tree_wf(groups),
        names_unique(groups),
        0 <= g < groups.len(),
        variable_defined(groups, g, name, xtype, dims, status, varid).is_ok(),
    ensures
        names_unique(
            with_variable(
                groups,
                g,
                variable_defined(groups, g, name, xtype, dims, status, varid).unwrap(),
            ),
        ),
{
    let v = variable_defined(groups, g, name, xtype, dims, status, varid).unwrap();
    let after = with_variable(groups, g, v);
    assert forall|h: int| 0 <= h < after.len() implies scope_names_distinct(after, h) by {
        assert(scope_names_distinct(groups, h));
        lemma_child_names_kept(groups, after, h);
        if h == g {
            let names = variable_names(groups[g].variables);
            assert(variable_names(after[g].variables) =~= names.push(name));
            lemma_name_index(names, name);
            lemma_push_keeps_distinct(names, name);
            assert(attribute_names(v.attributes) =~= Seq::empty());
            assert forall|w: int| 0 <= w < after[g].variables.len() implies names_distinct(
                attribute_names(#[trigger] after[g].variables[w].attributes),
            ) by {
                if w < groups[g].variables.len() {
                    assert(after[g].variables[w] == groups[g].variables[w]);
                }
            }
        }
    }
}

/// Adding a group uses no name twice, if none was used twice before.
pub proof fn lemma_group_keeps_names_unique(
    groups: Seq<GroupView>,
    g: int,
    name: Seq<char>,
    status: i32,
    grpid: i32,
)
    requires
        tree_wf(groups),
        names_unique(groups),
        0 <= g < groups.len(),
        group_defined(groups, g, name, status, grpid).is_ok(),
    ensures
        names_unique(
            with_group(groups, g, group_defined(groups, g, name, status, grpid).unwrap()),
        ),
{
    let node = group_defined(groups, g, name, status, grpid).unwrap();
    let after = with_group(groups, g, node);
    assert forall|h: int| 0 <= h < after.len() implies scope_names_distinct(after, h) by {
        if h < groups.len() {
            assert(scope_names_distinct(groups, h));
            assert(node_ok(groups, h));
            let names = child_names(groups, h);
            if h == g {
                assert(child_names(after, h) =~= names.push(name)) by {
                    assert forall|k: int| 0 <= k < names.len() implies child_names(after, h)[k]
                        == names[k] by {
                        let c = groups[h].groups[k];
                        assert(h < c < groups.len());
                    }
                }
                lemma_name_index(names, name);
                lemma_push_keeps_distinct(names, name);
            } else {
                assert(child_names(after, h) =~= names) by {
                    assert forall|k: int| 0 <= k < names.len() implies child_names(after, h)[k]
                        == names[k] by {
                        let c = groups[h].groups[k];
                        assert(h < c < groups.len());
                    }
                }
            }
        } else {
            assert(dimension_names(after[h].dimensions) =~= Seq::empty());
            assert(variable_names(after[h].variables) =~= Seq::empty());
            assert(child_names(after, h) =~= Seq::empty());
            assert(attribute_names(after[h].attributes) =~= Seq::empty());
        }
    }
}

/// Putting an attribute on a group uses no name twice, if none was used
/// twice before: an attribute of the same name is replaced.
pub proof fn lemma_group_attribute_keeps_names_unique(
    groups: Seq<GroupView>,
    g: int,
    attr: AttributeView,
)
    requires
        tree_wf(groups),
        names_unique(groups),
        0 <= g < groups.len(),
    ensures
        names_unique(with_group_attribute(groups, g, attr)),
{
    let after = with_group_attribute(groups, g, attr);
    assert forall|h: int| 0 <= h < after.len() implies scope_names_distinct(after, h) by {
        assert(scope_names_distinct(groups, h));
        lemma_child_names_kept(groups, after, h);
        if h == g {
            lemma_put_attribute(groups[g].attributes, attr);
        }
    }
}

/// Putting an attribute on a variable uses no name twice, if none was used
/// twice before.
pub proof fn lemma_variable_attribute_keeps_names_unique(
    groups: Seq<GroupView>,
    g: int,
    v: int,
    attr: AttributeView,
)
    requires
        tree_wf(groups),
        names_unique(groups),
        0 <= g < groups.len(),
        0 <= v < groups[g].variables.len(),
    ensures
        names_unique(with_variable_attribute(groups, g, v, attr)),
{
    let after = with_variable_attribute(groups, g, v, attr);
    assert forall|h: int| 0 <= h < after.len() implies scope_names_distinct(after, h) by {
        assert(scope_names_distinct(groups, h));
        lemma_child_names_kept(groups, after, h);
        if h == g {
            assert(variable_names(after[g].variables) =~= variable_names(groups[g].variables));
            lemma_put_attribute(groups[g].variables[v].attributes, attr);
            assert forall|w: int| 0 <= w < after[g].variables.len() implies names_distinct(
                attribute_names(#[trigger] after[g].variables[w].attributes),
            ) by {
                if w != v {
                    assert(after[g].variables[w] == groups[g].variables[w]);
                }
            }
        }
    }
}

} // verus!
