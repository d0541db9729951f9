//! Outlines of nested selections.

use crate::ast::Name;
use crate::connectors::visitors::total_weight;
use crate::connectors::visitors::FieldVisitor;
use crate::connectors::visitors::GroupVisitor;
use crate::text::str_lt;
use crate::text::text_lt;
use crate::text::text_order_is_strict;
use crate::text::text_order_is_total;
use crate::text::Text;
use vstd::prelude::*;

verus! {

/// A selection with the names that it selects, and what it selects below.
pub struct NamedSelection {
    pub names: Vec<Name>,
    pub selections: Option<SubSelection>,
}

/// Selections of a group.
pub struct SubSelection {
    pub selections: Vec<NamedSelection>,
}

/// What may go wrong with an outline.
#[derive(Clone, Copy, Debug, PartialEq, Eq, Structural)]
pub enum OutlineError {
    /// There is no group to leave.
    NoGroup,
}

/// The names of selections, each with its depth.
pub struct Outline {
    /// The depths of the groups that the visitor is in.
    pub depth_stack: Vec<usize>,
    pub visited: Vec<(usize, Name)>,
}

/// The mathematical content of an [`Outline`].
#[verifier::ext_equal]
pub struct OutlineView {
    pub depth_stack: Seq<usize>,
    pub visited: Seq<(usize, Text)>,
}

impl Outline {
    /// An outline without names.
    pub fn new() -> (r: Self)
        ensures
            r.state() == (OutlineView { depth_stack: Seq::empty(), visited: Seq::empty() }),
    {
        let r = Outline { depth_stack: Vec::new(), visited: Vec::new() };
        assert(r.state().visited =~= Seq::empty());
        r
    }
}

/// The number of selections in a selection, with itself.
pub open spec fn selection_size(selection: NamedSelection) -> nat
    decreases selection, 0nat,
{
    match selection.selections {
        Some(below) => 1 + sub_size(below, below.selections@.len()),
        None => 1,
    }
}

/// The number of selections in the first `n` selections of a group.
pub open spec fn sub_size(group: SubSelection, n: nat) -> nat
    decreases group, n,
{
    if n == 0 || n > group.selections@.len() {
        0
    } else {
        sub_size(group, (n - 1) as nat) + selection_size(group.selections@[n - 1])
    }
}

/// The depth of the group that the visitor is in.
pub open spec fn last_depth(depths: Seq<usize>) -> usize {
    if depths.len() == 0 {
        0
    } else {
        depths.last()
    }
}

/// The depth of a group that is entered.
pub open spec fn next_depth(depths: Seq<usize>) -> usize {
    if depths.len() == 0 || depths.last() == usize::MAX {
        0
    } else {
        (depths.last() + 1) as usize
    }
}

/// Names at a depth.
pub open spec fn names_at(names: Seq<Text>, depth: usize) -> Seq<(usize, Text)> {
    names.map_values(|name: Text| (depth, name))
}

/// The selections of a group, by reference.
pub open spec fn selections_of<'a>(group: &'a SubSelection) -> Seq<&'a NamedSelection> {
    Seq::new(group.selections@.len(), |i: int| &group.selections@[i])
}

/// Whether some names come before others: the first that differ decide, and where there are none,
/// fewer names come first.
pub open spec fn names_lt(a: Seq<Text>, b: Seq<Text>) -> bool
    decreases a.len(),
{
    if b.len() == 0 {
        false
    } else if a.len() == 0 {
        true
    } else if a[0] == b[0] {
        names_lt(a.drop_first(), b.drop_first())
    } else {
        text_lt(a[0], b[0])
    }
}

/// Whether some names come before others.
fn come_before(a: &Vec<Name>, b: &Vec<Name>) -> (r: bool)
    ensures
        r == names_lt(a.deep_view(), b.deep_view()),
{
    let ghost x = a.deep_view();
    let ghost y = b.deep_view();
    assert(x.skip(0) =~= x);
    assert(y.skip(0) =~= y);
    let mut i: usize = 0;
    while i < a.len() && i < b.len()
        invariant
            i <= a@.len(),
            i <= b@.len(),
            x == a.deep_view(),
            y == b.deep_view(),
            names_lt(x, y) == names_lt(x.skip(i as int), y.skip(i as int)),
        decreases a@.len() - i,
    {
        assert(x.skip(i as int)[0] == a@[i as int]@);
        assert(y.skip(i as int)[0] == b@[i as int]@);
        assert(x.skip(i as int).drop_first() =~= x.skip(i + 1));
        assert(y.skip(i as int).drop_first() =~= y.skip(i + 1));
        proof {
            text_order_is_total(a@[i as int]@, b@[i as int]@);
            text_order_is_strict(a@[i as int]@, b@[i as int]@);
        }
        if str_lt(&a[i], &b[i]) {
            return true;
        }
        if str_lt(&b[i], &a[i]) {
            return false;
        }
        i += 1;
    }
    i < b.len()
}

/// Where a selection goes among the first `n` of some sorted ones: behind all that do not come after
/// it.
pub open spec fn place_of<'a>(
    sorted: Seq<&'a NamedSelection>,
    new: &'a NamedSelection,
    n: nat,
) -> nat
    decreases n,
{
    if n == 0 {
        0
    } else if names_lt(new.names.deep_view(), sorted[n - 1].names.deep_view()) {
        place_of(sorted, new, (n - 1) as nat)
    } else {
        n
    }
}

/// The first `n` selections sorted by their names. Those with the same names stay in their order.
pub open spec fn sorted_by_names<'a>(selections: Seq<&'a NamedSelection>, n: nat) -> Seq<
    &'a NamedSelection,
>
    decreases n,
{
    if n == 0 {
        Seq::empty()
    } else {
        let before = sorted_by_names(selections, (n - 1) as nat);
        let new = selections[n - 1];
        before.insert(place_of(before, new, before.len()) as int, new)
    }
}

proof fn lemma_place<'a>(sorted: Seq<&'a NamedSelection>, new: &'a NamedSelection, n: nat)
    ensures
        place_of(sorted, new, n) <= n,
    decreases n,
{
    if n > 0 {
        lemma_place(sorted, new, (n - 1) as nat);
    }
}

proof fn lemma_weight_of_more<'a>(
    fields: Seq<&'a NamedSelection>,
    place: int,
    new: &'a NamedSelection,
    weight: spec_fn(&'a NamedSelection) -> nat,
)
    requires
        0 <= place <= fields.len(),
    ensures
        total_weight(fields.insert(place, new), weight) == total_weight(fields, weight) + weight(
            new,
        ),
    decreases place,
{
    let more = fields.insert(place, new);
    if place == 0 {
        assert(more.skip(1) =~= fields);
    } else {
        lemma_weight_of_more(fields.skip(1), place - 1, new, weight);
        assert(more.skip(1) =~= fields.skip(1).insert(place - 1, new));
    }
}

proof fn lemma_weights<'a>(group: &'a SubSelection, n: nat)
    requires
        n <= group.selections@.len(),
    ensures
        total_weight(
            sorted_by_names(selections_of(group), n),
            |field: &'a NamedSelection| selection_size(*field),
        ) == sub_size(*group, n),
    decreases n,
{
    if n > 0 {
        lemma_weights(group, (n - 1) as nat);
        let before = sorted_by_names(selections_of(group), (n - 1) as nat);
        let new = selections_of(group)[n - 1];
        lemma_place(before, new, before.len());
        lemma_weight_of_more(
            before,
            place_of(before, new, before.len()) as int,
            new,
            |field: &'a NamedSelection| selection_size(*field),
        );
    }
}

fn insert_by_names<'a>(sorted: &mut Vec<&'a NamedSelection>, new: &'a NamedSelection)
    ensures
        final(sorted)@ == old(sorted)@.insert(
            place_of(old(sorted)@, new, old(sorted)@.len()) as int,
            new,
        ),
{
    let mut n: usize = sorted.len();
    while n > 0 && come_before(&new.names, &sorted[n - 1].names)
        invariant
            n <= sorted@.len(),
            sorted@ == old(sorted)@,
            place_of(sorted@, new, sorted@.len()) == place_of(sorted@, new, n as nat),
        decreases n,
    {
        n -= 1;
    }
    sorted.insert(n, new);
}

impl<'a> FieldVisitor<&'a NamedSelection> for Outline {
    type Error = OutlineError;

    type State = OutlineView;

    open spec fn state(&self) -> OutlineView {
        OutlineView {
            depth_stack: self.depth_stack@,
            visited: self.visited@.map_values(|line: (usize, Name)| (line.0, line.1@)),
        }
    }

    open spec fn visiting(state: OutlineView, field: &'a NamedSelection) -> Result<
        OutlineView,
        OutlineError,
    > {
        Ok(
            OutlineView {
                visited: state.visited + names_at(
                    field.names.deep_view(),
                    last_depth(state.depth_stack),
                ),
                ..state
            },
        )
    }

    fn visit(&mut self, field: &&'a NamedSelection) -> (r: Result<(), OutlineError>) {
        let ghost before = self.state();
        let ghost all = field.names.deep_view();
        let depth: usize = if self.depth_stack.len() == 0 {
            0
        } else {
            self.depth_stack[self.depth_stack.len() - 1]
        };
        let mut i: usize = 0;
        assert(names_at(all.take(0), depth) =~= Seq::empty());
        assert(self.state().visited =~= before.visited + names_at(all.take(0), depth));
        while i < field.names.len()
            invariant
                i <= field.names@.len(),
                all == field.names.deep_view(),
                depth == last_depth(before.depth_stack),
                self.state().depth_stack == before.depth_stack,
                self.state().visited == before.visited + names_at(all.take(i as int), depth),
            decreases field.names@.len() - i,
        {
            let ghost so_far = self.state().visited;
            let name = field.names[i].clone();
            assert(all[i as int] == name@);
            self.visited.push((depth, name));
            assert(self.state().visited =~= so_far.push((depth, all[i as int])));
            assert(names_at(all.take(i + 1), depth) =~= names_at(all.take(i as int), depth).push(
                (depth, all[i as int]),
            ));
            assert(self.state().visited =~= before.visited + names_at(all.take(i + 1), depth));
            i += 1;
        }
        assert(all.take(i as int) =~= all);
        Ok(())
    }
}

impl<'a> GroupVisitor<&'a SubSelection, &'a NamedSelection> for Outline {
    open spec fn field_weight() -> spec_fn(&'a NamedSelection) -> nat {
        |field: &'a NamedSelection| selection_size(*field)
    }

    open spec fn group_weight(group: &'a SubSelection) -> nat {
        sub_size(*group, group.selections@.len())
    }

    open spec fn group_of(state: OutlineView, field: &'a NamedSelection) -> Result<
        Option<&'a SubSelection>,
        OutlineError,
    > {
        Ok(
            match field.selections {
                Some(below) => Some(&below),
                None => None,
            },
        )
    }

    open spec fn entering(state: OutlineView, group: &'a SubSelection) -> Result<
        (OutlineView, Seq<&'a NamedSelection>),
        OutlineError,
    > {
        Ok(
            (
                OutlineView {
                    depth_stack: state.depth_stack.push(next_depth(state.depth_stack)),
                    ..state
                },
                sorted_by_names(selections_of(group), group.selections@.len()),
            ),
        )
    }

    open spec fn exiting(state: OutlineView) -> Result<OutlineView, OutlineError> {
        if state.depth_stack.len() == 0 {
            Err(OutlineError::NoGroup)
        } else {
            Ok(OutlineView { depth_stack: state.depth_stack.drop_last(), ..state })
        }
    }

    fn try_get_group_for_field(&self, field: &&'a NamedSelection) -> (r: Result<
        Option<&'a SubSelection>,
        OutlineError,
    >) {
        match &field.selections {
            Some(below) => Ok(Some(below)),
            None => Ok(None),
        }
    }

    fn enter_group(&mut self, group: &&'a SubSelection) -> (r: Result<
        Vec<&'a NamedSelection>,
        OutlineError,
    >) {
        let ghost before = self.state();
        let group: &'a SubSelection = *group;
        let count: usize = self.depth_stack.len();
        let depth: usize = if count == 0 || self.depth_stack[count - 1] == usize::MAX {
            0
        } else {
            self.depth_stack[count - 1] + 1
        };
        self.depth_stack.push(depth);
        let mut fields: Vec<&'a NamedSelection> = Vec::new();
        let mut i: usize = 0;
        while i < group.selections.len()
            invariant
                i <= group.selections@.len(),
                fields@ == sorted_by_names(selections_of(group), i as nat),
            decreases group.selections@.len() - i,
        {
            insert_by_names(&mut fields, &group.selections[i]);
            i += 1;
        }
        proof {
            lemma_weights(group, group.selections@.len());
            assert(self.state().visited =~= before.visited);
        }
        Ok(fields)
    }

    fn exit_group(&mut self) -> (r: Result<(), OutlineError>) {
        let ghost before = self.state();
        match self.depth_stack.pop() {
            Some(_) => {
                assert(self.depth_stack@ =~= before.depth_stack.drop_last());
                Ok(())
            },
            None => Err(OutlineError::NoGroup),
        }
    }
}

} // verus!
