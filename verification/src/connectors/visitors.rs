//! Visitors of nested structures, and what they add to a schema.

use crate::ast::Directive;
use crate::ast::DirectiveView;
use crate::ast::Name;
use crate::collections::put;
use crate::collections::NameSet;
use crate::error::internal_error;
use crate::error::result_view;
use crate::error::ErrorView;
use crate::error::FederationError;
use crate::schema::position::position_name;
use crate::schema::position::position_of;
use crate::schema::position::type_position;
use crate::schema::position::PositionView;
use crate::schema::position::TypeDefinitionPosition;
use crate::schema::ExtendedType;
use crate::schema::ExtendedTypeView;
use crate::schema::Schema;
use crate::schema::SchemaView;
use crate::text::joined3;
use crate::text::joined;
use crate::text::same;
use crate::text::Text;
use std::collections::VecDeque;
use vstd::prelude::*;

verus! {

// Directives.

/// Those of the first `n` directives whose names are not denied.
pub open spec fn allowed_directives(directives: Seq<DirectiveView>, denied: Seq<Text>, n: nat) -> Seq<
    DirectiveView,
>
    decreases n,
{
    if n == 0 {
        Seq::empty()
    } else {
        let before = allowed_directives(directives, denied, (n - 1) as nat);
        if denied.contains(directives[n - 1].name) {
            before
        } else {
            before.push(directives[n - 1])
        }
    }
}

/// The directives whose names are not denied, in order.
pub fn filter_directives(deny_list: &NameSet, directives: &Vec<Directive>) -> (r: Vec<Directive>)
    ensures
        r.deep_view() == allowed_directives(
            directives.deep_view(),
            deny_list.deep_view(),
            directives.deep_view().len(),
        ),
{
    let ghost all = directives.deep_view();
    let mut r: Vec<Directive> = Vec::new();
    assert(r.deep_view() =~= Seq::empty());
    let mut i: usize = 0;
    while i < directives.len()
        invariant
            i <= directives@.len(),
            all == directives.deep_view(),
            r.deep_view() == allowed_directives(all, deny_list.deep_view(), i as nat),
        decreases directives@.len() - i,
    {
        assert(all[i as int] == directives@[i as int].deep_view());
        let ghost before = r.deep_view();
        if !deny_list.contains(&directives[i].name) {
            r.push(directives[i].clone());
            assert(r.deep_view() =~= before.push(all[i as int]));
        }
        i += 1;
    }
    r
}

/// A directive that is left is one of the directives, and it is not denied.
pub proof fn law_denied_directives_are_gone(
    directives: Seq<DirectiveView>,
    denied: Seq<Text>,
    n: nat,
    i: int,
)
    requires
        n <= directives.len(),
        0 <= i < allowed_directives(directives, denied, n).len(),
    ensures
        !denied.contains(allowed_directives(directives, denied, n)[i].name),
        directives.contains(allowed_directives(directives, denied, n)[i]),
    decreases n,
{
    let before = allowed_directives(directives, denied, (n - 1) as nat);
    if denied.contains(directives[n - 1].name) || i < before.len() {
        law_denied_directives_are_gone(directives, denied, (n - 1) as nat, i);
    } else {
        assert(directives[n - 1] == allowed_directives(directives, denied, n)[i]);
    }
}

/// The directives that are left are those that are not denied, in their order.
pub proof fn law_allowed_directives_stay(
    directives: Seq<DirectiveView>,
    denied: Seq<Text>,
    n: nat,
)
    requires
        n <= directives.len(),
    ensures
        allowed_directives(directives, denied, n) == directives.take(n as int).filter(
            |d: DirectiveView| !denied.contains(d.name),
        ),
    decreases n,
{
    reveal(Seq::filter);
    if n > 0 {
        law_allowed_directives_stay(directives, denied, (n - 1) as nat);
        assert(directives.take(n as int).drop_last() =~= directives.take(n - 1));
    }
}

// Types.

/// The kind of a type and its name.
pub open spec fn position_text(position: PositionView) -> Text {
    position_kind(position) + "("@ + position_name(position) + ")"@
}

/// The kind of a type.
pub open spec fn position_kind(position: PositionView) -> Text {
    match position {
        PositionView::Scalar(_) => "Scalar"@,
        PositionView::Object(_) => "Object"@,
        PositionView::Interface(_) => "Interface"@,
        PositionView::Union(_) => "Union"@,
        PositionView::Enum(_) => "Enum"@,
        PositionView::InputObject(_) => "InputObject"@,
    }
}

impl TypeDefinitionPosition {
    /// The kind of the type.
    pub fn kind(&self) -> (r: &'static str)
        ensures
            r@ == position_kind(self.deep_view()),
    {
        match self {
            TypeDefinitionPosition::Scalar(_) => "Scalar",
            TypeDefinitionPosition::Object(_) => "Object",
            TypeDefinitionPosition::Interface(_) => "Interface",
            TypeDefinitionPosition::Union(_) => "Union",
            TypeDefinitionPosition::Enum(_) => "Enum",
            TypeDefinitionPosition::InputObject(_) => "InputObject",
        }
    }

    /// The kind of the type and its name.
    pub fn text(&self) -> (r: String)
        ensures
            r@ == position_text(self.deep_view()),
    {
        joined(&joined3(self.kind(), "(", self.name()), ")")
    }

    /// Whether two types are of the same kind and name.
    pub fn same_as(&self, other: &TypeDefinitionPosition) -> (r: bool)
        ensures
            r == (self.deep_view() == other.deep_view()),
    {
        match (self, other) {
            (TypeDefinitionPosition::Scalar(a), TypeDefinitionPosition::Scalar(b)) => same(a, b),
            (TypeDefinitionPosition::Object(a), TypeDefinitionPosition::Object(b)) => same(a, b),
            (TypeDefinitionPosition::Interface(a), TypeDefinitionPosition::Interface(b)) => same(
                a,
                b,
            ),
            (TypeDefinitionPosition::Union(a), TypeDefinitionPosition::Union(b)) => same(a, b),
            (TypeDefinitionPosition::Enum(a), TypeDefinitionPosition::Enum(b)) => same(a, b),
            (TypeDefinitionPosition::InputObject(a), TypeDefinitionPosition::InputObject(b)) =>
                same(a, b),
            _ => false,
        }
    }
}

/// A schema with one more type. If there is a type of that name, nothing changes; it has to be of
/// the same kind.
pub open spec fn with_type(schema: SchemaView, name: Text, ty: ExtendedTypeView) -> Result<
    SchemaView,
    ErrorView,
> {
    match is_new_type(schema, position_of(name, ty)) {
        Ok(true) => Ok(SchemaView { types: put(schema.types, name, ty), ..schema }),
        Ok(false) => Ok(schema),
        Err(error) => Err(error),
    }
}

fn position_for(name: &Name, ty: &ExtendedType) -> (r: TypeDefinitionPosition)
    ensures
        r.deep_view() == position_of(name@, ty.deep_view()),
{
    match ty {
        ExtendedType::Scalar(_) => TypeDefinitionPosition::Scalar(name.clone()),
        ExtendedType::Object(_) => TypeDefinitionPosition::Object(name.clone()),
        ExtendedType::Interface(_) => TypeDefinitionPosition::Interface(name.clone()),
        ExtendedType::Union(_) => TypeDefinitionPosition::Union(name.clone()),
        ExtendedType::Enum(_) => TypeDefinitionPosition::Enum(name.clone()),
        ExtendedType::InputObject(_) => TypeDefinitionPosition::InputObject(name.clone()),
    }
}

/// Whether a type is new to a schema. If there is a type of that name, it has to be of the same kind.
pub open spec fn is_new_type(schema: SchemaView, position: PositionView) -> Result<bool, ErrorView> {
    match type_position(schema, position_name(position)) {
        None => Ok(true),
        Some(found) => if found == position {
            Ok(false)
        } else {
            Err(
                internal_error(
                    "found different type when upserting: expected "@ + position_text(position)
                        + " found "@ + position_text(found),
                ),
            )
        },
    }
}

impl Schema {
    /// Whether a type has to be announced before it is added: not if there is a type of that name,
    /// which has to be of the same kind.
    pub fn try_pre_insert(&self, position: &TypeDefinitionPosition) -> (r: Result<
        bool,
        FederationError,
    >)
        ensures
            result_view(r) == is_new_type(self.deep_view(), position.deep_view()),
    {
        match self.try_get_type(position.name()) {
            Some(found) => if found.same_as(position) {
                Ok(false)
            } else {
                let start = joined3(
                    "found different type when upserting: expected ",
                    &position.text(),
                    " found ",
                );
                Err(FederationError::internal(&joined(&start, &found.text())))
            },
            None => Ok(true),
        }
    }

    /// Adds a type. If there is a type of that name, nothing changes; it has to be of the same kind.
    pub fn try_insert(&mut self, name: Name, ty: ExtendedType) -> (r: Result<(), FederationError>)
        ensures
            match with_type(old(self).deep_view(), name@, ty.deep_view()) {
                Ok(after) => r is Ok && final(self).deep_view() == after,
                Err(error) => (r matches Err(e) && e.deep_view() == error)
                    && final(self).deep_view() == old(self).deep_view(),
            },
    {
        match self.try_pre_insert(&position_for(&name, &ty)) {
            Ok(true) => {
                self.types.insert(name, ty);
                Ok(())
            },
            Ok(false) => Ok(()),
            Err(error) => Err(error),
        }
    }
}

// Visitors.

/// How heavy some fields are together.
pub open spec fn total_weight<Field>(fields: Seq<Field>, weight: spec_fn(Field) -> nat) -> nat
    decreases fields.len(),
{
    if fields.len() == 0 {
        0
    } else {
        weight(fields[0]) + total_weight(fields.skip(1), weight)
    }
}

/// A visitor of fields of any kind.
pub trait FieldVisitor<Field>: Sized {
    /// What may go wrong.
    type Error;

    /// What a visitor is, mathematically.
    type State;

    /// What the visitor is.
    spec fn state(&self) -> Self::State;

    /// The visitor after it visited a field.
    spec fn visiting(state: Self::State, field: Field) -> Result<Self::State, Self::Error>;

    /// Visits a field.
    fn visit(&mut self, field: &Field) -> (r: Result<(), Self::Error>)
        ensures
            match r {
                Ok(_) => Self::visiting(old(self).state(), *field) == Ok::<Self::State, Self::Error>(
                    final(self).state(),
                ),
                Err(error) => Self::visiting(old(self).state(), *field) == Err::<
                    Self::State,
                    Self::Error,
                >(error),
            },
    ;
}

/// A visitor of nested structures: a field may be a group of further fields. The nesting ends: a
/// group is lighter than its field, and its fields are no heavier than the group.
pub trait GroupVisitor<Group, Field>: FieldVisitor<Field> {
    /// How heavy a field is.
    spec fn field_weight() -> spec_fn(Field) -> nat;

    /// How heavy a group is.
    spec fn group_weight(group: Group) -> nat;

    /// The group that a field is, if it is one.
    spec fn group_of(state: Self::State, field: Field) -> Result<Option<Group>, Self::Error>;

    /// The visitor after it entered a group, and the fields of the group.
    spec fn entering(state: Self::State, group: Group) -> Result<
        (Self::State, Seq<Field>),
        Self::Error,
    >;

    /// The visitor after it left a group.
    spec fn exiting(state: Self::State) -> Result<Self::State, Self::Error>;

    /// The group that a field is, if it is one.
    fn try_get_group_for_field(&self, field: &Field) -> (r: Result<Option<Group>, Self::Error>)
        ensures
            r == Self::group_of(self.state(), *field),
            r matches Ok(Some(group)) ==> Self::group_weight(group) < (Self::field_weight())(*field),
    ;

    /// Enters a group whose field was visited: the fields of the group.
    fn enter_group(&mut self, group: &Group) -> (r: Result<Vec<Field>, Self::Error>)
        ensures
            match r {
                Ok(fields) => Self::entering(old(self).state(), *group) == Ok::<
                    (Self::State, Seq<Field>),
                    Self::Error,
                >((final(self).state(), fields@)) && total_weight(fields@, Self::field_weight())
                    <= Self::group_weight(*group),
                Err(error) => Self::entering(old(self).state(), *group) == Err::<
                    (Self::State, Seq<Field>),
                    Self::Error,
                >(error),
            },
    ;

    /// Leaves the group that was entered last.
    fn exit_group(&mut self) -> (r: Result<(), Self::Error>)
        ensures
            match r {
                Ok(_) => Self::exiting(old(self).state()) == Ok::<Self::State, Self::Error>(
                    final(self).state(),
                ),
                Err(error) => Self::exiting(old(self).state()) == Err::<Self::State, Self::Error>(
                    error,
                ),
            },
    ;
}

/// The group that a field is, if it is one. A group that is not lighter than its field counts as
/// none.
pub open spec fn lighter_group<V: GroupVisitor<Group, Field>, Group, Field>(
    visitor: V::State,
    field: Field,
) -> Result<Option<Group>, V::Error> {
    match V::group_of(visitor, field) {
        Ok(Some(group)) => if V::group_weight(group) < (V::field_weight())(field) {
            Ok(Some(group))
        } else {
            Ok(None)
        },
        other => other,
    }
}

/// A visitor after it entered a group, and the fields of the group. Fields that are heavier than
/// the group count as none.
pub open spec fn lighter_fields<V: GroupVisitor<Group, Field>, Group, Field>(
    visitor: V::State,
    group: Group,
) -> Result<(V::State, Seq<Field>), V::Error> {
    match V::entering(visitor, group) {
        Ok((inside, fields)) => if total_weight(fields, V::field_weight()) <= V::group_weight(
            group,
        ) {
            Ok((inside, fields))
        } else {
            Ok((inside, Seq::empty()))
        },
        Err(error) => Err(error),
    }
}

/// A visitor after it went through a group: it enters the group, goes through its fields in order,
/// and leaves it. What goes wrong first ends that.
pub open spec fn walked_group<V: GroupVisitor<Group, Field>, Group, Field>(
    visitor: V::State,
    group: Group,
) -> Result<V::State, V::Error>
    decreases V::group_weight(group), 2nat, 0nat,
{
    match lighter_fields::<V, Group, Field>(visitor, group) {
        Err(error) => Err(error),
        Ok((inside, fields)) => match walked_fields::<V, Group, Field>(inside, fields) {
            Err(error) => Err(error),
            Ok(done) => V::exiting(done),
        },
    }
}

/// A visitor after it went through some fields in order.
pub open spec fn walked_fields<V: GroupVisitor<Group, Field>, Group, Field>(
    visitor: V::State,
    fields: Seq<Field>,
) -> Result<V::State, V::Error>
    decreases total_weight(fields, V::field_weight()), 1nat, fields.len(),
{
    if fields.len() == 0 {
        Ok(visitor)
    } else {
        match walked_field::<V, Group, Field>(visitor, fields[0]) {
            Err(error) => Err(error),
            Ok(next) => walked_fields::<V, Group, Field>(next, fields.skip(1)),
        }
    }
}

/// A visitor after it went through a field: it visits the field, and goes through the group that the
/// field is, if it is one.
pub open spec fn walked_field<V: GroupVisitor<Group, Field>, Group, Field>(
    visitor: V::State,
    field: Field,
) -> Result<V::State, V::Error>
    decreases (V::field_weight())(field), 0nat, 0nat,
{
    match V::visiting(visitor, field) {
        Err(error) => Err(error),
        Ok(visited) => match lighter_group::<V, Group, Field>(visited, field) {
            Err(error) => Err(error),
            Ok(None) => Ok(visited),
            Ok(Some(group)) => walked_group::<V, Group, Field>(visited, group),
        },
    }
}

// The walk with a queue.

/// A visitor after it left some groups.
spec fn left<V: GroupVisitor<Group, Field>, Group, Field>(visitor: V::State, count: nat) -> Result<V::State, V::Error>
    decreases count,
{
    if count == 0 {
        Ok(visitor)
    } else {
        match V::exiting(visitor) {
            Err(error) => Err(error),
            Ok(outside) => left::<V, Group, Field>(outside, (count - 1) as nat),
        }
    }
}

/// The fields of a queue.
spec fn fields_of<Field>(queue: Seq<(usize, Field)>) -> Seq<Field> {
    Seq::new(queue.len(), |i: int| queue[i].1)
}

/// Fields at a depth.
spec fn at_depth<Field>(fields: Seq<Field>, depth: usize) -> Seq<(usize, Field)> {
    Seq::new(fields.len(), |i: int| (depth, fields[i]))
}

/// A visitor after it went through a queue of fields with their depths, where it is in groups up to
/// a depth. It leaves groups until it is at the depth of a field, and all of them at the end.
spec fn rest<V: GroupVisitor<Group, Field>, Group, Field>(
    visitor: V::State,
    queue: Seq<(usize, Field)>,
    depth: nat,
) -> Result<V::State, V::Error>
    decreases total_weight(fields_of(queue), V::field_weight()), queue.len(),
{
    if queue.len() == 0 {
        left::<V, Group, Field>(visitor, depth + 1)
    } else {
        let (own, field) = queue[0];
        let tail = queue.skip(1);
        match left::<V, Group, Field>(visitor, (depth - own) as nat) {
            Err(error) => Err(error),
            Ok(outside) => match V::visiting(outside, field) {
                Err(error) => Err(error),
                Ok(visited) => match lighter_group::<V, Group, Field>(visited, field) {
                    Err(error) => Err(error),
                    Ok(None) => {
                        proof {
                            lemma_queue_weight::<V, Group, Field>(queue);
                        }
                        rest::<V, Group, Field>(visited, tail, own as nat)
                    },
                    Ok(Some(group)) => match lighter_fields::<V, Group, Field>(visited, group) {
                        Err(error) => Err(error),
                        Ok((inside, fields)) => {
                            proof {
                                lemma_queue_weight::<V, Group, Field>(queue);
                                lemma_joined_weight::<V, Group, Field>(
                                    fields,
                                    (own + 1) as usize,
                                    tail,
                                );
                            }
                            rest::<V, Group, Field>(
                                inside,
                                at_depth(fields, (own + 1) as usize) + tail,
                                (own + 1) as nat,
                            )
                        },
                    },
                },
            },
        }
    }
}

proof fn lemma_queue_weight<V: GroupVisitor<Group, Field>, Group, Field>(queue: Seq<(usize, Field)>)
    requires
        queue.len() > 0,
    ensures
        total_weight(fields_of(queue), V::field_weight()) == (V::field_weight())(queue[0].1) + total_weight(fields_of(queue.skip(1)), V::field_weight()),
{
    assert(fields_of(queue).skip(1) =~= fields_of(queue.skip(1)));
}

proof fn lemma_joined_weight<V: GroupVisitor<Group, Field>, Group, Field>(
    fields: Seq<Field>,
    depth: usize,
    tail: Seq<(usize, Field)>,
)
    ensures
        total_weight(fields_of(at_depth(fields, depth) + tail), V::field_weight()) == total_weight(fields, V::field_weight()) + total_weight(fields_of(tail), V::field_weight()),
    decreases fields.len(),
{
    let all = at_depth(fields, depth) + tail;
    if fields.len() == 0 {
        assert(fields_of(all) =~= fields_of(tail));
    } else {
        lemma_queue_weight::<V, Group, Field>(all);
        assert(all.skip(1) =~= at_depth(fields.skip(1), depth) + tail);
        lemma_joined_weight::<V, Group, Field>(fields.skip(1), depth, tail);
    }
}

/// Going one depth up leaves one group, if the next field is not deeper.
proof fn lemma_rest_outside<V: GroupVisitor<Group, Field>, Group, Field>(
    visitor: V::State,
    queue: Seq<(usize, Field)>,
    depth: nat,
)
    requires
        queue.len() > 0 ==> queue[0].0 <= depth,
    ensures
        rest::<V, Group, Field>(visitor, queue, depth + 1) == (match V::exiting(visitor) {
            Err(error) => Err(error),
            Ok(outside) => rest::<V, Group, Field>(outside, queue, depth),
        }),
{
    reveal_with_fuel(left, 2);
    reveal_with_fuel(rest, 2);
}

/// Going through fields at the depth of the visitor is going through them in order.
proof fn lemma_rest_fields<V: GroupVisitor<Group, Field>, Group, Field>(
    visitor: V::State,
    fields: Seq<Field>,
    tail: Seq<(usize, Field)>,
    depth: usize,
    bound: nat,
)
    requires
        total_weight(fields, V::field_weight()) <= bound,
        depth + bound <= usize::MAX,
        tail.len() > 0 ==> tail[0].0 <= depth,
    ensures
        rest::<V, Group, Field>(visitor, at_depth(fields, depth) + tail, depth as nat) == (
        match walked_fields::<V, Group, Field>(visitor, fields) {
            Err(error) => Err(error),
            Ok(done) => rest::<V, Group, Field>(done, tail, depth as nat),
        }),
    decreases total_weight(fields, V::field_weight()), fields.len(),
{
    let queue = at_depth(fields, depth) + tail;
    if fields.len() == 0 {
        assert(queue =~= tail);
    } else {
        let field = fields[0];
        let more = fields.skip(1);
        assert(queue[0] == (depth, field));
        assert(queue.skip(1) =~= at_depth(more, depth) + tail);
        assert(left::<V, Group, Field>(visitor, 0) == Ok::<V::State, V::Error>(visitor));
        reveal_with_fuel(walked_fields, 4);
        reveal_with_fuel(walked_field, 4);
        reveal_with_fuel(walked_group, 4);
        match V::visiting(visitor, field) {
            Err(_) => {},
            Ok(visited) => match lighter_group::<V, Group, Field>(visited, field) {
                Err(_) => {},
                Ok(None) => {
                    lemma_rest_fields::<V, Group, Field>(visited, more, tail, depth, bound);
                },
                Ok(Some(group)) => match lighter_fields::<V, Group, Field>(visited, group) {
                    Err(_) => {},
                    Ok((inside, inner)) => {
                        let next = at_depth(more, depth) + tail;
                        lemma_rest_fields::<V, Group, Field>(
                            inside,
                            inner,
                            next,
                            (depth + 1) as usize,
                            (bound - 1) as nat,
                        );
                        match walked_fields::<V, Group, Field>(inside, inner) {
                            Err(_) => {},
                            Ok(done) => {
                                lemma_rest_outside::<V, Group, Field>(done, next, depth as nat);
                                match V::exiting(done) {
                                    Err(_) => {},
                                    Ok(outside) => {
                                        lemma_rest_fields::<V, Group, Field>(
                                            outside,
                                            more,
                                            tail,
                                            depth,
                                            bound,
                                        );
                                    },
                                }
                            },
                        }
                    },
                },
            },
        }
    }
}

proof fn lemma_weight_bound<Field>(fields: Seq<Field>, weight: spec_fn(Field) -> nat, i: int)
    requires
        0 <= i < fields.len(),
    ensures
        weight(fields[i]) <= total_weight(fields, weight),
    decreases fields.len(),
{
    if i > 0 {
        assert(fields.skip(1)[i - 1] == fields[i]);
        lemma_weight_bound(fields.skip(1), weight, i - 1);
    }
}

fn exit_groups<V: GroupVisitor<Group, Field>, Group, Field>(visitor: &mut V, count: usize) -> (r:
    Result<(), V::Error>)
    ensures
        match r {
            Ok(_) => left::<V, Group, Field>(old(visitor).state(), count as nat) == Ok::<
                V::State,
                V::Error,
            >(final(visitor).state()),
            Err(error) => left::<V, Group, Field>(old(visitor).state(), count as nat) == Err::<
                V::State,
                V::Error,
            >(error),
        },
{
    let mut i: usize = 0;
    while i < count
        invariant
            i <= count,
            left::<V, Group, Field>(old(visitor).state(), count as nat) == left::<V, Group, Field>(
                visitor.state(),
                (count - i) as nat,
            ),
        decreases count - i,
    {
        if let Err(error) = visitor.exit_group() {
            return Err(error);
        }
        i += 1;
    }
    Ok(())
}

fn push_all_front<Field>(queue: &mut VecDeque<(usize, Field)>, fields: Vec<Field>, depth: usize)
    ensures
        final(queue)@ == at_depth(fields@, depth) + old(queue)@,
{
    let ghost all = fields@;
    let ghost tail = queue@;
    let mut fields = fields;
    assert(queue@ =~= at_depth(all.skip(all.len() as int), depth) + tail);
    while fields.len() > 0
        invariant
            fields@.len() <= all.len(),
            fields@ == all.take(fields@.len() as int),
            queue@ == at_depth(all.skip(fields@.len() as int), depth) + tail,
        decreases fields@.len(),
    {
        let ghost n = fields@.len() as int;
        if let Some(field) = fields.pop() {
            assert(field == all[n - 1]);
            queue.push_front((depth, field));
            assert(queue@ =~= at_depth(all.skip(n - 1), depth) + tail);
            assert(fields@ =~= all.take(n - 1));
        }
    }
    assert(all.skip(0) =~= all);
}

/// The depths of a queue do not grow, and leave room for the weights of the fields.
spec fn queue_in_order<Field>(
    queue: Seq<(usize, Field)>,
    weight: spec_fn(Field) -> nat,
    depth: nat,
    limit: nat,
) -> bool {
    &&& forall|i: int, j: int|
        0 <= i <= j < queue.len() ==> (#[trigger] queue[i]).0 >= (#[trigger] queue[j]).0
    &&& forall|i: int|
        0 <= i < queue.len() ==> (#[trigger] queue[i]).0 + weight(queue[i].1) <= limit
    &&& queue.len() > 0 ==> queue[0].0 <= depth
}

/// Goes through a group: visits its fields in order, and those of a field that is a group before
/// the next field. What goes wrong first ends that.
pub fn walk<V: GroupVisitor<Group, Field>, Group, Field>(visitor: V, entry: Group) -> (r: Result<
    V,
    V::Error,
>)
    requires
        V::group_weight(entry) < usize::MAX,
    ensures
        walked_group::<V, Group, Field>(visitor.state(), entry) == (match r {
            Ok(walked) => Ok(walked.state()),
            Err(error) => Err(error),
        }),
{
    let ghost expected = walked_group::<V, Group, Field>(visitor.state(), entry);
    let ghost limit = V::group_weight(entry);
    let ghost weight = V::field_weight();
    let mut walker = visitor;
    let fields = match walker.enter_group(&entry) {
        Ok(fields) => fields,
        Err(error) => {
            return Err(error);
        },
    };
    let ghost first = fields@;
    let mut to_visit: VecDeque<(usize, Field)> = VecDeque::new();
    push_all_front(&mut to_visit, fields, 0);
    let mut current_depth: usize = 0;
    proof {
        let none: Seq<(usize, Field)> = Seq::empty();
        assert(to_visit@ == at_depth(first, 0) + none);
        lemma_rest_fields::<V, Group, Field>(walker.state(), first, none, 0, limit);
        match walked_fields::<V, Group, Field>(walker.state(), first) {
            Err(_) => {},
            Ok(done) => {
                reveal_with_fuel(left, 2);
                assert(rest::<V, Group, Field>(done, none, 0) == V::exiting(done));
            },
        }
        assert(rest::<V, Group, Field>(walker.state(), to_visit@, 0) == expected);
        assert forall|i: int| 0 <= i < to_visit@.len() implies (#[trigger] to_visit@[i]).0 + weight(
            to_visit@[i].1,
        ) <= limit by {
            lemma_weight_bound(first, weight, i);
        }
    }
    while to_visit.len() > 0
        invariant
            weight == V::field_weight(),
            limit < usize::MAX,
            expected == walked_group::<V, Group, Field>(visitor.state(), entry),
            current_depth <= limit,
            queue_in_order(to_visit@, weight, current_depth as nat, limit),
            rest::<V, Group, Field>(walker.state(), to_visit@, current_depth as nat) == expected,
        decreases total_weight(fields_of(to_visit@), weight), to_visit@.len(),
    {
        let ghost queue = to_visit@;
        proof {
            lemma_queue_weight::<V, Group, Field>(queue);
        }
        if let Some((depth, next)) = to_visit.pop_front() {
            let ghost tail = to_visit@;
            assert(queue[0] == (depth, next));
            assert(tail =~= queue.skip(1));
            assert(forall|i: int| 0 <= i < tail.len() ==> #[trigger] tail[i] == queue[i + 1]);
            if let Err(error) = exit_groups::<V, Group, Field>(&mut walker, current_depth - depth) {
                return Err(error);
            }
            current_depth = depth;
            if let Err(error) = walker.visit(&next) {
                return Err(error);
            }
            let group = match walker.try_get_group_for_field(&next) {
                Ok(group) => group,
                Err(error) => {
                    return Err(error);
                },
            };
            if let Some(group) = group {
                current_depth += 1;
                let fields = match walker.enter_group(&group) {
                    Ok(fields) => fields,
                    Err(error) => {
                        return Err(error);
                    },
                };
                let ghost inner = fields@;
                push_all_front(&mut to_visit, fields, current_depth);
                proof {
                    lemma_joined_weight::<V, Group, Field>(inner, current_depth, tail);
                    assert forall|i: int| 0 <= i < to_visit@.len() implies (
                    #[trigger] to_visit@[i]).0 + weight(to_visit@[i].1) <= limit by {
                        if i < inner.len() {
                            lemma_weight_bound(inner, weight, i);
                        } else {
                            assert(to_visit@[i] == tail[i - inner.len()]);
                        }
                    }
                    assert forall|i: int, j: int| 0 <= i <= j < to_visit@.len() implies (
                    #[trigger] to_visit@[i]).0 >= (#[trigger] to_visit@[j]).0 by {
                        if i >= inner.len() {
                            assert(to_visit@[i] == tail[i - inner.len()]);
                        }
                        if j >= inner.len() {
                            assert(to_visit@[j] == tail[j - inner.len()]);
                        }
                    }
                }
            }
        }
    }
    assert(to_visit@.len() == 0);
    if let Err(error) = exit_groups::<V, Group, Field>(&mut walker, current_depth + 1) {
        return Err(error);
    }
    Ok(walker)
}

// Building schemas.

/// A visitor that builds a schema: it copies types with their fields over from another schema.
pub struct SchemaVisitor<'a, Group, GroupType> {
    /// The directives that are not copied.
    pub directive_deny_list: &'a NameSet,
    /// Where the types come from.
    pub original_schema: &'a Schema,
    /// Where the types are added.
    pub to_schema: &'a mut Schema,
    /// The groups that were entered and not left yet, each with its type.
    pub type_stack: Vec<(Group, GroupType)>,
}

impl<'a, Group, GroupType> SchemaVisitor<'a, Group, GroupType> {
    /// A visitor that has entered no group yet.
    pub fn new(
        original_schema: &'a Schema,
        to_schema: &'a mut Schema,
        directive_deny_list: &'a NameSet,
    ) -> (r: Self)
        ensures
            r.directive_deny_list == directive_deny_list,
            r.original_schema == original_schema,
            *r.to_schema == *old(to_schema),
            *final(to_schema) == *final(r.to_schema),
            r.type_stack@ == Seq::<(Group, GroupType)>::empty(),
    {
        SchemaVisitor { directive_deny_list, original_schema, to_schema, type_stack: Vec::new() }
    }
}

} // verus!
