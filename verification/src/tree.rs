//! The tree of groups that a container holds.
//!
//! The groups of a container stand in one list, the root first and every
//! group after its parent. A group knows its parent and its children by
//! their positions in that list, so the tree holds no reference from a
//! child back to what owns it.

use vstd::prelude::*;
use crate::attribute::{attribute_views, put, put_attribute, Attribute, AttributeView};
use crate::dimension::{
    dimension_views, dimension_wf, lemma_resolve_in_concat, position_of_key, resolve_in,
    Dimension, DimensionView, Key,
};
use crate::types::{type_views, Type, TypeView};
use crate::variable::{variable_views, Variable, VariableView};

verus! {

/// One group of a container, as the list of groups holds it.
#[derive(Debug)]
pub struct GroupData {
    name: String,
    ncid: i32,
    parent: Option<usize>,
    groups: Vec<usize>,
    dimensions: Vec<Dimension>,
    variables: Vec<Variable>,
    attributes: Vec<Attribute>,
    types: Vec<Type>,
}

/// What a group stands for.
pub struct GroupView {
    /// Name of the group.
    pub name: Seq<char>,
    /// Handle of the group.
    pub ncid: i32,
    /// Position of the parent; `None` for the root.
    pub parent: Option<int>,
    /// Positions of the subgroups, in the order of the engine.
    pub groups: Seq<int>,
    /// The dimensions that the group defines.
    pub dimensions: Seq<DimensionView>,
    /// The variables of the group.
    pub variables: Seq<VariableView>,
    /// The attributes of the group itself.
    pub attributes: Seq<AttributeView>,
    /// The user-defined types of the group.
    pub types: Seq<TypeView>,
}

/// A position in the list of groups, as a number.
pub open spec fn position(at: Option<usize>) -> Option<int> {
    match at {
        Some(p) => Some(p as int),
        None => None,
    }
}

/// Positions in the list of groups, as numbers.
pub open spec fn positions(at: Seq<usize>) -> Seq<int> {
    at.map_values(|p: usize| p as int)
}

impl View for GroupData {
    type V = GroupView;

    closed spec fn view(&self) -> GroupView {
        GroupView {
            name: self.name@,
            ncid: self.ncid,
            parent: position(self.parent),
            groups: positions(self.groups@),
            dimensions: dimension_views(self.dimensions@),
            variables: variable_views(self.variables@),
            attributes: attribute_views(self.attributes@),
            types: type_views(self.types@),
        }
    }
}

/// The views of a list of groups, in order.
pub open spec fn group_views(nodes: Seq<GroupData>) -> Seq<GroupView> {
    nodes.map_values(|g: GroupData| g@)
}

/// The dimensions that a group sees: its own, then those of its parent, and
/// so on up to the root. Never those of a subgroup.
pub open spec fn scope_dims(groups: Seq<GroupView>, g: int) -> Seq<DimensionView>
    decreases g,
{
    if g < 0 || g >= groups.len() {
        Seq::empty()
    } else {
        groups[g].dimensions + (match groups[g].parent {
            Some(p) => if 0 <= p < g {
                scope_dims(groups, p)
            } else {
                Seq::empty()
            },
            None => Seq::empty(),
        })
    }
}

/// The dimensions that are seen from `start`; none where there is no group
/// to start from.
pub open spec fn scope_of(groups: Seq<GroupView>, start: Option<int>) -> Seq<DimensionView> {
    match start {
        Some(g) => scope_dims(groups, g),
        None => Seq::empty(),
    }
}

/// The root has no parent, and every other group has one that stands
/// before it in the list.
pub open spec fn parent_ok(groups: Seq<GroupView>, g: int) -> bool {
    match groups[g].parent {
        Some(p) => 0 <= p < g,
        None => g == 0,
    }
}

/// Every subgroup of a group stands after it in the list and has it as its
/// parent.
pub open spec fn children_ok(groups: Seq<GroupView>, g: int) -> bool {
    forall|k: int|
        0 <= k < groups[g].groups.len() ==> g < #[trigger] groups[g].groups[k] < groups.len()
            && groups[groups[g].groups[k]].parent == Some(g)
}

/// Every dimension of every variable of a group is one that the group
/// sees: its own or one of an ancestor.
pub open spec fn variables_ok(groups: Seq<GroupView>, g: int) -> bool {
    forall|v: int, k: int|
        0 <= v < groups[g].variables.len() && 0 <= k < groups[g].variables[v].dimensions.len()
            ==> scope_dims(groups, g).contains(#[trigger] groups[g].variables[v].dimensions[k])
}

/// Every dimension of a group has a positive length or grows.
pub open spec fn dimensions_ok(groups: Seq<GroupView>, g: int) -> bool {
    forall|k: int|
        0 <= k < groups[g].dimensions.len() ==> dimension_wf(#[trigger] groups[g].dimensions[k])
}

/// What holds of each group of a well-formed tree.
pub open spec fn node_ok(groups: Seq<GroupView>, g: int) -> bool {
    &&& parent_ok(groups, g)
    &&& children_ok(groups, g)
    &&& variables_ok(groups, g)
    &&& dimensions_ok(groups, g)
}

/// A list of groups is a well-formed tree when it has a root and every
/// group is in order.
pub open spec fn tree_wf(groups: Seq<GroupView>) -> bool {
    &&& groups.len() >= 1
    &&& forall|g: int| 0 <= g < groups.len() ==> node_ok(groups, g)
}

/// True when `longer` begins with the dimensions of `shorter`, in order.
pub open spec fn extends(longer: Seq<DimensionView>, shorter: Seq<DimensionView>) -> bool {
    &&& shorter.len() <= longer.len()
    &&& forall|k: int| 0 <= k < shorter.len() ==> shorter[k] == longer[k]
}

/// What a group sees depends on the group and its ancestors alone: two
/// lists that agree, up to the group, on parents and dimensions give it the
/// same scope.
pub proof fn lemma_scope_frame(a: Seq<GroupView>, b: Seq<GroupView>, g: int)
    requires
        0 <= g < a.len(),
        g < b.len(),
        forall|i: int|
            0 <= i <= g ==> (#[trigger] a[i]).parent == b[i].parent && a[i].dimensions
                == b[i].dimensions,
    ensures
        scope_dims(a, g) == scope_dims(b, g),
    decreases g,
{
    match a[g].parent {
        Some(p) => {
            if 0 <= p < g {
                lemma_scope_frame(a, b, p);
            }
        },
        None => {},
    }
}

/// A scope never shrinks: where every group keeps its parent and its
/// dimensions, and may gain dimensions at the end, whatever a group saw it
/// still sees.
pub proof fn lemma_scope_grows(a: Seq<GroupView>, b: Seq<GroupView>, g: int, d: DimensionView)
    requires
        0 <= g < a.len(),
        g < b.len(),
        forall|i: int|
            0 <= i <= g ==> (#[trigger] a[i]).parent == b[i].parent && extends(
                b[i].dimensions,
                a[i].dimensions,
            ),
        scope_dims(a, g).contains(d),
    ensures
        scope_dims(b, g).contains(d),
    decreases g,
{
    let own = a[g].dimensions;
    let at = choose|i: int| 0 <= i < scope_dims(a, g).len() && scope_dims(a, g)[i] == d;
    if at < own.len() {
        assert(b[g].dimensions[at] == d);
        assert(scope_dims(b, g)[at] == d);
    } else {
        match a[g].parent {
            Some(p) => {
                if 0 <= p < g {
                    assert(scope_dims(a, p)[at - own.len()] == d);
                    lemma_scope_grows(a, b, p, d);
                    let up = choose|i: int|
                        0 <= i < scope_dims(b, p).len() && scope_dims(b, p)[i] == d;
                    assert(scope_dims(b, g)[b[g].dimensions.len() + up] == d);
                }
            },
            None => {},
        }
    }
}

/// A tree stays well formed when its groups keep their parents, keep their
/// dimensions and may gain some at the end, when groups may be added at the
/// end of the list, and when each group is in order as far as it changed.
pub proof fn lemma_tree_grows(a: Seq<GroupView>, b: Seq<GroupView>)
    requires
        tree_wf(a),
        a.len() <= b.len(),
        forall|i: int|
            0 <= i < a.len() ==> (#[trigger] a[i]).parent == b[i].parent && extends(
                b[i].dimensions,
                a[i].dimensions,
            ),
        forall|i: int|
            0 <= i < a.len() ==> (#[trigger] b[i]).groups == a[i].groups || children_ok(b, i),
        forall|i: int|
            0 <= i < a.len() ==> (#[trigger] b[i]).variables == a[i].variables || variables_ok(
                b,
                i,
            ),
        forall|i: int|
            0 <= i < a.len() ==> (#[trigger] b[i]).dimensions == a[i].dimensions || dimensions_ok(
                b,
                i,
            ),
        forall|i: int| a.len() <= i < b.len() ==> node_ok(b, i),
    ensures
        tree_wf(b),
{
    assert forall|g: int| 0 <= g < b.len() implies node_ok(b, g) by {
        if g < a.len() {
            assert(node_ok(a, g));
            assert(parent_ok(b, g));
            if b[g].groups == a[g].groups {
                assert forall|k: int| 0 <= k < b[g].groups.len() implies g
                    < #[trigger] b[g].groups[k] < b.len() && b[b[g].groups[k]].parent == Some(
                    g,
                ) by {
                    let c = a[g].groups[k];
                    assert(g < c < a.len());
                    assert(a[c].parent == b[c].parent);
                }
            }
            if b[g].variables == a[g].variables {
                assert forall|v: int, k: int|
                    0 <= v < b[g].variables.len() && 0 <= k
                        < b[g].variables[v].dimensions.len() implies scope_dims(b, g).contains(
                    #[trigger] b[g].variables[v].dimensions[k],
                ) by {
                    lemma_scope_grows(a, b, g, a[g].variables[v].dimensions[k]);
                }
            }
        }
    }
}

impl GroupData {
    /// A group with its dimensions and types, and as yet without
    /// variables, attributes and subgroups.
    pub(crate) fn new(
        name: String,
        ncid: i32,
        parent: Option<usize>,
        dimensions: Vec<Dimension>,
        types: Vec<Type>,
    ) -> (g: GroupData)
        ensures
            g@ == (GroupView {
                name: name@,
                ncid,
                parent: position(parent),
                groups: Seq::empty(),
                dimensions: dimension_views(dimensions@),
                variables: Seq::empty(),
                attributes: Seq::empty(),
                types: type_views(types@),
            }),
    {
        let g = GroupData {
            name,
            ncid,
            parent,
            groups: Vec::new(),
            dimensions,
            variables: Vec::new(),
            attributes: Vec::new(),
            types,
        };
        assert(g@.groups =~= Seq::empty());
        assert(g@.variables =~= Seq::empty());
        assert(g@.attributes =~= Seq::empty());
        g
    }

    /// Gives the group its variables, attributes and subgroups.
    pub(crate) fn fill(
        &mut self,
        variables: Vec<Variable>,
        attributes: Vec<Attribute>,
        groups: Vec<usize>,
    )
        ensures
            final(self)@ == (GroupView {
                groups: positions(groups@),
                variables: variable_views(variables@),
                attributes: attribute_views(attributes@),
                ..old(self)@
            }),
    {
        self.variables = variables;
        self.attributes = attributes;
        self.groups = groups;
    }

    /// Name of the group.
    pub(crate) fn name(&self) -> (r: &String)
        ensures
            r@ == self@.name,
    {
        &self.name
    }

    /// Handle of the group.
    pub(crate) fn ncid(&self) -> (r: i32)
        ensures
            r == self@.ncid,
    {
        self.ncid
    }

    /// Position of the parent.
    pub(crate) fn parent(&self) -> (r: Option<usize>)
        ensures
            position(r) == self@.parent,
    {
        self.parent
    }

    /// Positions of the subgroups.
    pub(crate) fn groups(&self) -> (r: &Vec<usize>)
        ensures
            positions(r@) == self@.groups,
    {
        &self.groups
    }

    /// The dimensions that the group defines.
    pub(crate) fn dimensions(&self) -> (r: &Vec<Dimension>)
        ensures
            dimension_views(r@) == self@.dimensions,
    {
        &self.dimensions
    }

    /// The variables of the group.
    pub(crate) fn variables(&self) -> (r: &Vec<Variable>)
        ensures
            variable_views(r@) == self@.variables,
    {
        &self.variables
    }

    /// The attributes of the group itself.
    pub(crate) fn attributes(&self) -> (r: &Vec<Attribute>)
        ensures
            attribute_views(r@) == self@.attributes,
    {
        &self.attributes
    }

    /// The user-defined types of the group.
    pub(crate) fn types(&self) -> (r: &Vec<Type>)
        ensures
            type_views(r@) == self@.types,
    {
        &self.types
    }

    /// Puts a dimension at the end of those of the group.
    pub(crate) fn push_dimension(&mut self, d: Dimension)
        ensures
            final(self)@ == (GroupView {
                dimensions: old(self)@.dimensions.push(d@),
                ..old(self)@
            }),
    {
        self.dimensions.push(d);
        assert(dimension_views(self.dimensions@) =~= dimension_views(old(self).dimensions@).push(
            d@,
        ));
    }

    /// Puts a variable at the end of those of the group.
    pub(crate) fn push_variable(&mut self, v: Variable)
        ensures
            final(self)@ == (GroupView {
                variables: old(self)@.variables.push(v@),
                ..old(self)@
            }),
    {
        self.variables.push(v);
        assert(variable_views(self.variables@) =~= variable_views(old(self).variables@).push(v@));
    }

    /// Records a new subgroup, which stands at `child` in the list.
    pub(crate) fn push_child(&mut self, child: usize)
        ensures
            final(self)@ == (GroupView {
                groups: old(self)@.groups.push(child as int),
                ..old(self)@
            }),
    {
        self.groups.push(child);
        assert(positions(self.groups@) =~= positions(old(self).groups@).push(child as int));
    }

    /// Puts an attribute on the group itself.
    pub(crate) fn put_attribute(&mut self, attr: Attribute)
        ensures
            final(self)@ == (GroupView {
                attributes: put_attribute(old(self)@.attributes, attr@),
                ..old(self)@
            }),
    {
        let _ = put(&mut self.attributes, attr);
    }

    /// Puts an attribute on the variable at `v`.
    pub(crate) fn put_variable_attribute(&mut self, v: usize, attr: Attribute)
        requires
            v < old(self)@.variables.len(),
        ensures
            final(self)@ == (GroupView {
                variables: old(self)@.variables.update(
                    v as int,
                    VariableView {
                        attributes: put_attribute(old(self)@.variables[v as int].attributes, attr@),
                        ..old(self)@.variables[v as int]
                    },
                ),
                ..old(self)@
            }),
    {
        let _ = self.variables[v].put_attribute(attr);
        assert(variable_views(self.variables@) =~= variable_views(old(self).variables@).update(
            v as int,
            self.variables@[v as int]@,
        ));
    }
}

/// Looks a dimension up from the group `start`: among its own dimensions
/// first, then among those of its parent, and so on up to the root.
pub(crate) fn resolve_up<'a>(nodes: &'a Vec<GroupData>, start: usize, key: &Key<'_>) -> (r:
    Option<&'a Dimension>)
    requires
        tree_wf(group_views(nodes@)),
        start < nodes@.len(),
    ensures
        match r {
            Some(d) => resolve_in(scope_dims(group_views(nodes@), start as int), key@) == Some(
                d@,
            ),
            None => resolve_in(scope_dims(group_views(nodes@), start as int), key@).is_none(),
        },
{
    let ghost groups = group_views(nodes@);
    let mut g: usize = start;
    loop
        invariant
            groups == group_views(nodes@),
            tree_wf(groups),
            g < nodes@.len(),
            resolve_in(scope_dims(groups, start as int), key@) == resolve_in(
                scope_dims(groups, g as int),
                key@,
            ),
        decreases g,
    {
        let ghost rest = match groups[g as int].parent {
            Some(p) => scope_dims(groups, p),
            None => Seq::empty(),
        };
        proof {
            assert(node_ok(groups, g as int));
            assert(scope_dims(groups, g as int) == groups[g as int].dimensions + rest);
            lemma_resolve_in_concat(groups[g as int].dimensions, rest, key@);
        }
        match position_of_key(&nodes[g].dimensions, key) {
            Some(at) => {
                return Some(&nodes[g].dimensions[at]);
            },
            None => {},
        }
        match nodes[g].parent {
            Some(p) => {
                g = p;
            },
            None => {
                return None;
            },
        }
    }
}

} // verus!
