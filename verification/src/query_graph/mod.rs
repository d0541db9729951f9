//! The query graph: the types of all subgraphs and the ways between them.

pub mod advance;
pub mod advance_casts;
pub mod advance_fields;
pub mod advance_laws;
pub mod advance_path;
pub mod advance_paths;
pub mod advancer;
pub mod comparison_laws;
pub mod condition_resolver;
pub mod elements;
pub mod field_laws;
pub mod fragment_laws;
pub mod graph_path;
pub mod nesting_laws;
pub mod options;
pub mod path_checks;
pub mod path_laws;
pub mod steps;
pub mod subsumption;
pub mod texts;

use crate::ast::inner_name;
use crate::ast::Name;
use crate::collections::clone_keeps_view;
use crate::collections::set_with;
use crate::collections::value_of;
use crate::collections::Entries;
use crate::collections::NameMap;
use crate::collections::NameSet;
use crate::error::internal_error;
use crate::error::result_view;
use crate::error::ErrorView;
use crate::error::FederationError;
use crate::merge::directives::has_directive;
use crate::merge::directives::is_applied;
use crate::operation::condition_name;
use crate::operation::selection::SelectionSet;
use crate::operation::selection::SelectionSetView;
use crate::operation::Field;
use crate::operation::InlineFragment;
use crate::schema::position::as_composite;
use crate::schema::position::composite_name;
use crate::schema::position::field_definition;
use crate::schema::position::get_type;
use crate::schema::position::runtime_types;
use crate::schema::position::CompositeTypeDefinitionPosition;
use crate::schema::position::CompositeView;
use crate::schema::position::FieldDefinitionPosition;
use crate::schema::position::FieldPositionView;
use crate::schema::position::PositionView;
use crate::schema::position::TypeDefinitionPosition;
use crate::schema::ExtendedType;
use crate::schema::ExtendedTypeView;
use crate::schema::Schema;
use crate::schema::SchemaView;
use crate::text::same;
use crate::text::Text;
use std::sync::Arc;
use vstd::prelude::*;

verus! {

/// The kinds of root operations.
#[derive(Clone, Copy, Debug, PartialEq, Eq, Structural)]
pub enum SchemaRootDefinitionKind {
    Query,
    Mutation,
    Subscription,
}

/// What a node of the graph stands for.
pub enum QueryGraphNodeType {
    /// A type of a subgraph.
    SchemaType(TypeDefinitionPosition),
    /// The root from which all subgraphs can be entered.
    FederatedRootType(SchemaRootDefinitionKind),
}

/// The mathematical content of a [`QueryGraphNodeType`].
#[verifier::ext_equal]
pub enum NodeTypeView {
    SchemaType(PositionView),
    FederatedRootType(SchemaRootDefinitionKind),
}

impl DeepView for QueryGraphNodeType {
    type V = NodeTypeView;

    open spec fn deep_view(&self) -> NodeTypeView {
        match self {
            QueryGraphNodeType::SchemaType(position) => NodeTypeView::SchemaType(
                position.deep_view(),
            ),
            QueryGraphNodeType::FederatedRootType(kind) => NodeTypeView::FederatedRootType(*kind),
        }
    }
}

impl Clone for QueryGraphNodeType {
    fn clone(&self) -> (r: Self)
        ensures
            r.deep_view() == self.deep_view(),
    {
        match self {
            QueryGraphNodeType::SchemaType(position) => {
                QueryGraphNodeType::SchemaType(position.clone())
            },
            QueryGraphNodeType::FederatedRootType(kind) => {
                QueryGraphNodeType::FederatedRootType(*kind)
            },
        }
    }
}

impl QueryGraphNodeType {
    /// Whether this is the root from which all subgraphs can be entered.
    pub fn is_federated_root_type(&self) -> (r: bool)
        ensures
            r == (self.deep_view() is FederatedRootType),
    {
        match self {
            QueryGraphNodeType::SchemaType(_) => false,
            QueryGraphNodeType::FederatedRootType(_) => true,
        }
    }
}

/// A node of the graph: a type in a subgraph.
pub struct QueryGraphNode {
    pub type_: QueryGraphNodeType,
    pub source: Name,
}

/// The mathematical content of a [`QueryGraphNode`].
#[verifier::ext_equal]
pub struct NodeView {
    pub type_: NodeTypeView,
    pub source: Text,
}

impl DeepView for QueryGraphNode {
    type V = NodeView;

    open spec fn deep_view(&self) -> NodeView {
        NodeView {
            type_: self.type_.deep_view(),
            source: self.source@,
        }
    }
}

impl Clone for QueryGraphNode {
    fn clone(&self) -> (r: Self)
        ensures
            r.deep_view() == self.deep_view(),
    {
        QueryGraphNode {
            type_: self.type_.clone(),
            source: self.source.clone(),
        }
    }
}

/// What taking an edge means.
pub enum QueryGraphEdgeTransition {
    FieldCollection { source: Name, field_definition_position: FieldDefinitionPosition, is_part_of_provides: bool },
    Downcast { source: Name, from_type_position: CompositeTypeDefinitionPosition, to_type_position: CompositeTypeDefinitionPosition },
    KeyResolution,
    RootTypeResolution,
    SubgraphEnteringTransition,
    InterfaceObjectFakeDownCast { source: Name, from_type_position: CompositeTypeDefinitionPosition, to_type_name: Name },
}

/// The mathematical content of a [`QueryGraphEdgeTransition`].
#[verifier::ext_equal]
pub enum TransitionView {
    FieldCollection { source: Text, field_definition_position: FieldPositionView, is_part_of_provides: bool },
    Downcast { source: Text, from_type_position: CompositeView, to_type_position: CompositeView },
    KeyResolution,
    RootTypeResolution,
    SubgraphEnteringTransition,
    InterfaceObjectFakeDownCast { source: Text, from_type_position: CompositeView, to_type_name: Text },
}

impl DeepView for QueryGraphEdgeTransition {
    type V = TransitionView;

    open spec fn deep_view(&self) -> TransitionView {
        match self {
            QueryGraphEdgeTransition::FieldCollection { source, field_definition_position, is_part_of_provides } => TransitionView::FieldCollection {
                source: source@,
                field_definition_position: field_definition_position.deep_view(),
                is_part_of_provides: *is_part_of_provides,
            },
            QueryGraphEdgeTransition::Downcast { source, from_type_position, to_type_position } => TransitionView::Downcast {
                source: source@,
                from_type_position: from_type_position.deep_view(),
                to_type_position: to_type_position.deep_view(),
            },
            QueryGraphEdgeTransition::KeyResolution => TransitionView::KeyResolution,
            QueryGraphEdgeTransition::RootTypeResolution => TransitionView::RootTypeResolution,
            QueryGraphEdgeTransition::SubgraphEnteringTransition => TransitionView::SubgraphEnteringTransition,
            QueryGraphEdgeTransition::InterfaceObjectFakeDownCast { source, from_type_position, to_type_name } => TransitionView::InterfaceObjectFakeDownCast {
                source: source@,
                from_type_position: from_type_position.deep_view(),
                to_type_name: to_type_name@,
            },
        }
    }
}

impl Clone for QueryGraphEdgeTransition {
    fn clone(&self) -> (r: Self)
        ensures
            r.deep_view() == self.deep_view(),
    {
        match self {
            QueryGraphEdgeTransition::FieldCollection { source, field_definition_position, is_part_of_provides } => QueryGraphEdgeTransition::FieldCollection {
                source: source.clone(),
                field_definition_position: field_definition_position.clone(),
                is_part_of_provides: *is_part_of_provides,
            },
            QueryGraphEdgeTransition::Downcast { source, from_type_position, to_type_position } => QueryGraphEdgeTransition::Downcast {
                source: source.clone(),
                from_type_position: from_type_position.clone(),
                to_type_position: to_type_position.clone(),
            },
            QueryGraphEdgeTransition::KeyResolution => QueryGraphEdgeTransition::KeyResolution,
            QueryGraphEdgeTransition::RootTypeResolution => QueryGraphEdgeTransition::RootTypeResolution,
            QueryGraphEdgeTransition::SubgraphEnteringTransition => QueryGraphEdgeTransition::SubgraphEnteringTransition,
            QueryGraphEdgeTransition::InterfaceObjectFakeDownCast { source, from_type_position, to_type_name } => QueryGraphEdgeTransition::InterfaceObjectFakeDownCast {
                source: source.clone(),
                from_type_position: from_type_position.clone(),
                to_type_name: to_type_name.clone(),
            },
        }
    }
}

/// The value that an override label has to have for an edge to be taken.
pub struct OverrideCondition {
    pub label: Name,
    pub condition: bool,
}

/// The mathematical content of an [`OverrideCondition`].
#[verifier::ext_equal]
pub struct OverrideConditionView {
    pub label: Text,
    pub condition: bool,
}

impl DeepView for OverrideCondition {
    type V = OverrideConditionView;

    open spec fn deep_view(&self) -> OverrideConditionView {
        OverrideConditionView {
            label: self.label@,
            condition: self.condition,
        }
    }
}

impl Clone for OverrideCondition {
    fn clone(&self) -> (r: Self)
        ensures
            r.deep_view() == self.deep_view(),
    {
        OverrideCondition {
            label: self.label.clone(),
            condition: self.condition,
        }
    }
}

/// An edge of the graph: from a node to another, with what has to be fetched before it can be taken.
pub struct QueryGraphEdge {
    pub head: usize,
    pub tail: usize,
    pub transition: QueryGraphEdgeTransition,
    pub conditions: Option<SelectionSet>,
    pub override_condition: Option<OverrideCondition>,
}

/// The mathematical content of a [`QueryGraphEdge`].
#[verifier::ext_equal]
pub struct EdgeView {
    pub head: usize,
    pub tail: usize,
    pub transition: TransitionView,
    pub conditions: Option<SelectionSetView>,
    pub override_condition: Option<OverrideConditionView>,
}

impl DeepView for QueryGraphEdge {
    type V = EdgeView;

    open spec fn deep_view(&self) -> EdgeView {
        EdgeView {
            head: self.head,
            tail: self.tail,
            transition: self.transition.deep_view(),
            conditions: self.conditions.deep_view(),
            override_condition: self.override_condition.deep_view(),
        }
    }
}

impl Clone for QueryGraphEdge {
    fn clone(&self) -> (r: Self)
        ensures
            r.deep_view() == self.deep_view(),
    {
        let conditions = match &self.conditions {
            Some(x) => Some(x.clone()),
            None => None,
        };
        let override_condition = match &self.override_condition {
            Some(x) => Some(x.clone()),
            None => None,
        };
        QueryGraphEdge {
            head: self.head,
            tail: self.tail,
            transition: self.transition.clone(),
            conditions,
            override_condition,
        }
    }
}

/// A subgraph of the graph: its schema and the names that it uses for federation directives.
pub struct SubgraphSource {
    pub schema: Arc<Schema>,
    pub key: Name,
    pub shareable: Name,
    pub provides: Name,
    pub interface_object: Name,
}

/// The mathematical content of a [`SubgraphSource`].
#[verifier::ext_equal]
pub struct SourceView {
    pub schema: SchemaView,
    pub key: Text,
    pub shareable: Text,
    pub provides: Text,
    pub interface_object: Text,
}

impl DeepView for SubgraphSource {
    type V = SourceView;

    open spec fn deep_view(&self) -> SourceView {
        SourceView {
            schema: self.schema.deep_view(),
            key: self.key@,
            shareable: self.shareable@,
            provides: self.provides@,
            interface_object: self.interface_object@,
        }
    }
}

impl Clone for SubgraphSource {
    fn clone(&self) -> (r: Self)
        ensures
            r.deep_view() == self.deep_view(),
    {
        SubgraphSource {
            schema: self.schema.clone(),
            key: self.key.clone(),
            shareable: self.shareable.clone(),
            provides: self.provides.clone(),
            interface_object: self.interface_object.clone(),
        }
    }
}

/// The values of the override labels.
pub struct OverrideConditions {
    pub values: NameMap<bool>,
}

/// The mathematical content of an [`OverrideConditions`].
#[verifier::ext_equal]
pub struct OverrideConditionsView {
    pub values: Entries<bool>,
}

impl DeepView for OverrideConditions {
    type V = OverrideConditionsView;

    open spec fn deep_view(&self) -> OverrideConditionsView {
        OverrideConditionsView {
            values: self.values.deep_view(),
        }
    }
}

impl Clone for OverrideConditions {
    fn clone(&self) -> (r: Self)
        ensures
            r.deep_view() == self.deep_view(),
    {
        let values = self.values.clone();
        assert(clone_keeps_view::<bool>());
        OverrideConditions {
            values,
        }
    }
}

/// The query graph.
pub struct QueryGraph {
    pub nodes: Vec<QueryGraphNode>,
    pub edges: Vec<QueryGraphEdge>,
    pub sources: NameMap<SubgraphSource>,
}

/// The mathematical content of a [`QueryGraph`].
#[verifier::ext_equal]
pub struct GraphView {
    pub nodes: Seq<NodeView>,
    pub edges: Seq<EdgeView>,
    pub sources: Entries<SourceView>,
}

impl DeepView for QueryGraph {
    type V = GraphView;

    open spec fn deep_view(&self) -> GraphView {
        GraphView {
            nodes: self.nodes.deep_view(),
            edges: self.edges.deep_view(),
            sources: self.sources.deep_view(),
        }
    }
}

impl Clone for QueryGraph {
    fn clone(&self) -> (r: Self)
        ensures
            r.deep_view() == self.deep_view(),
    {
        let nodes = self.nodes.clone();
        assert(nodes.deep_view() =~= self.nodes.deep_view());
        let edges = self.edges.clone();
        assert(edges.deep_view() =~= self.edges.deep_view());
        let sources = self.sources.clone();
        assert(clone_keeps_view::<SubgraphSource>());
        QueryGraph {
            nodes,
            edges,
            sources,
        }
    }
}

/// The node at an index.
pub open spec fn node_weight(graph: GraphView, node: usize) -> Result<NodeView, ErrorView> {
    if node < graph.nodes.len() {
        Ok(graph.nodes[node as int])
    } else {
        Err(internal_error("Node unexpectedly missing"@))
    }
}

/// The edge at an index.
pub open spec fn edge_weight(graph: GraphView, edge: usize) -> Result<EdgeView, ErrorView> {
    if edge < graph.edges.len() {
        Ok(graph.edges[edge as int])
    } else {
        Err(internal_error("Edge unexpectedly missing"@))
    }
}

/// The subgraph of the given name.
pub open spec fn source_of(graph: GraphView, source: Text) -> Result<SourceView, ErrorView> {
    match value_of(graph.sources, source) {
        Some(subgraph) => Ok(subgraph),
        None => Err(internal_error("Schema unexpectedly missing"@)),
    }
}

/// Whether the override labels have the values that an edge asks for.
pub open spec fn override_satisfied(edge: EdgeView, overrides: OverrideConditionsView) -> bool {
    match edge.override_condition {
        Some(wanted) => value_of(overrides.values, wanted.label) == Some(wanted.condition),
        None => true,
    }
}

/// Whether an edge collects the given field from the given node.
pub open spec fn edge_collects(
    edge: EdgeView,
    node: usize,
    field: Text,
    overrides: OverrideConditionsView,
) -> bool {
    edge.head == node && override_satisfied(edge, overrides) && match edge.transition {
        TransitionView::FieldCollection { source, field_definition_position, is_part_of_provides } =>
            field_definition_position.field_name == field,
        _ => false,
    }
}

/// Whether an edge casts the given node to the given type.
pub open spec fn edge_casts(edge: EdgeView, node: usize, to: Text) -> bool {
    edge.head == node && match edge.transition {
        TransitionView::Downcast { source, from_type_position, to_type_position } => composite_name(
            to_type_position,
        ) == to,
        _ => false,
    }
}

/// Whether an edge casts an interface object to one of the types behind the interface.
pub open spec fn edge_fakes(edge: EdgeView, node: usize, to: Text) -> bool {
    edge.head == node && match edge.transition {
        TransitionView::InterfaceObjectFakeDownCast { source, from_type_position, to_type_name } =>
            to_type_name == to,
        _ => false,
    }
}

/// The first index from `from` on whose edge has the property.
pub open spec fn first_edge(
    edges: Seq<EdgeView>,
    wanted: spec_fn(EdgeView) -> bool,
    from: nat,
) -> Option<usize>
    decreases edges.len() - from,
{
    if from >= edges.len() {
        None
    } else if wanted(edges[from as int]) {
        Some(from as usize)
    } else {
        first_edge(edges, wanted, from + 1)
    }
}

/// The edge by which a field is collected.
pub open spec fn edge_for_field(
    graph: GraphView,
    node: usize,
    field: Text,
    overrides: OverrideConditionsView,
) -> Option<usize> {
    first_edge(graph.edges, |e: EdgeView| edge_collects(e, node, field, overrides), 0)
}

/// The edge by which a node is cast to a type.
pub open spec fn edge_for_cast(graph: GraphView, node: usize, to: Option<Text>) -> Option<usize> {
    match to {
        Some(name) => first_edge(graph.edges, |e: EdgeView| edge_casts(e, node, name), 0),
        None => None,
    }
}

/// The edge by which an interface object is cast to a type behind the interface.
pub open spec fn edge_for_fake_cast(graph: GraphView, node: usize, to: Text) -> Option<usize> {
    first_edge(graph.edges, |e: EdgeView| edge_fakes(e, node, to), 0)
}

/// Whether the field of an object has the given directive.
pub open spec fn field_has_directive(
    schema: SchemaView,
    ty: Text,
    field: Text,
    directive: Text,
) -> bool {
    match value_of(schema.types, ty) {
        Some(ExtendedTypeView::Object(o)) => match value_of(o.fields, field) {
            Some(definition) => has_directive(definition.directives, directive),
            None => false,
        },
        _ => false,
    }
}

/// Whether one of the objects that implement an interface provides something with the field.
pub open spec fn implementation_provides(subgraph: SourceView, interface: Text, field: Text) -> bool {
    exists|i: int|
        0 <= i < runtime_types(subgraph.schema, CompositeView::Interface(interface)).len()
            && field_has_directive(
            subgraph.schema,
            #[trigger] runtime_types(subgraph.schema, CompositeView::Interface(interface))[i],
            field,
            subgraph.provides,
        )
}

/// Whether a node is an object that stands for an interface of the supergraph.
pub open spec fn is_interface_object(graph: GraphView, node: usize) -> Result<bool, ErrorView> {
    match node_weight(graph, node) {
        Ok(weight) => match weight.type_ {
            NodeTypeView::SchemaType(PositionView::Object(name)) => match source_of(
                graph,
                weight.source,
            ) {
                Ok(subgraph) => Ok(
                    match value_of(subgraph.schema.types, name) {
                        Some(ExtendedTypeView::Object(o)) => has_directive(
                            o.directives,
                            subgraph.interface_object,
                        ),
                        _ => false,
                    },
                ),
                Err(error) => Err(error),
            },
            _ => Ok(false),
        },
        Err(error) => Err(error),
    }
}

impl QueryGraph {
    /// The node at an index.
    pub fn node_weight(&self, node: usize) -> (r: Result<&QueryGraphNode, FederationError>)
        ensures
            result_view(r) == node_weight(self.deep_view(), node),
    {
        if node < self.nodes.len() {
            Ok(&self.nodes[node])
        } else {
            Err(FederationError::internal("Node unexpectedly missing"))
        }
    }

    /// The edge at an index.
    pub fn edge_weight(&self, edge: usize) -> (r: Result<&QueryGraphEdge, FederationError>)
        ensures
            result_view(r) == edge_weight(self.deep_view(), edge),
    {
        if edge < self.edges.len() {
            Ok(&self.edges[edge])
        } else {
            Err(FederationError::internal("Edge unexpectedly missing"))
        }
    }

    /// The subgraph of the given name.
    pub fn source(&self, source: &str) -> (r: Result<&SubgraphSource, FederationError>)
        ensures
            result_view(r) == source_of(self.deep_view(), source@),
    {
        match self.sources.get(source) {
            Some(subgraph) => Ok(subgraph),
            None => Err(FederationError::internal("Schema unexpectedly missing")),
        }
    }

    /// The edge by which a field is collected.
    pub fn edge_for_field(
        &self,
        node: usize,
        field: &Field,
        override_conditions: &OverrideConditions,
    ) -> (r: Option<usize>)
        ensures
            r == edge_for_field(
                self.deep_view(),
                node,
                field.deep_view().field_position.field_name,
                override_conditions.deep_view(),
            ),
    {
        let ghost all = self.edges.deep_view();
        let ghost name = field.deep_view().field_position.field_name;
        let ghost overrides = override_conditions.deep_view();
        let ghost wanted = |e: EdgeView| edge_collects(e, node, name, overrides);
        let mut i: usize = 0;
        while i < self.edges.len()
            invariant
                i <= self.edges.len(),
                all == self.edges.deep_view(),
                name == field.deep_view().field_position.field_name,
                overrides == override_conditions.deep_view(),
                wanted == (|e: EdgeView| edge_collects(e, node, name, overrides)),
                first_edge(all, wanted, 0) == first_edge(all, wanted, i as nat),
            decreases self.edges.len() - i,
        {
            let edge = &self.edges[i];
            assert(all[i as int] == edge.deep_view());
            let satisfied = match &edge.override_condition {
                Some(condition) => match override_conditions.values.get(&condition.label) {
                    Some(value) => *value == condition.condition,
                    None => false,
                },
                None => true,
            };
            let collects = match &edge.transition {
                QueryGraphEdgeTransition::FieldCollection { field_definition_position, .. } => {
                    same(&field_definition_position.field_name, field.name())
                },
                _ => false,
            };
            if edge.head == node && satisfied && collects {
                assert(wanted(all[i as int]));
                return Some(i);
            }
            assert(!wanted(all[i as int]));
            i += 1;
        }
        None
    }

    /// The edge by which a node is cast to the type of a fragment.
    pub fn edge_for_inline_fragment(&self, node: usize, inline_fragment: &InlineFragment) -> (r:
        Option<usize>)
        ensures
            r == edge_for_cast(
                self.deep_view(),
                node,
                condition_name(inline_fragment.deep_view()),
            ),
    {
        let condition = match &inline_fragment.type_condition_position {
            Some(position) => position.name(),
            None => {
                return None;
            },
        };
        let ghost all = self.edges.deep_view();
        let ghost wanted = |e: EdgeView| edge_casts(e, node, condition@);
        let mut i: usize = 0;
        while i < self.edges.len()
            invariant
                i <= self.edges.len(),
                all == self.edges.deep_view(),
                wanted == (|e: EdgeView| edge_casts(e, node, condition@)),
                condition_name(inline_fragment.deep_view()) == Some(condition@),
                first_edge(all, wanted, 0) == first_edge(all, wanted, i as nat),
            decreases self.edges.len() - i,
        {
            let edge = &self.edges[i];
            assert(all[i as int] == edge.deep_view());
            let casts = match &edge.transition {
                QueryGraphEdgeTransition::Downcast { to_type_position, .. } => {
                    same(to_type_position.name(), condition)
                },
                _ => false,
            };
            if edge.head == node && casts {
                assert(wanted(all[i as int]));
                return Some(i);
            }
            assert(!wanted(all[i as int]));
            i += 1;
        }
        None
    }

    /// The edge by which an interface object is cast to a type behind the interface.
    pub fn edge_for_fake_cast(&self, node: usize, to: &str) -> (r: Option<usize>)
        ensures
            r == edge_for_fake_cast(self.deep_view(), node, to@),
    {
        let ghost all = self.edges.deep_view();
        let ghost wanted = |e: EdgeView| edge_fakes(e, node, to@);
        let mut i: usize = 0;
        while i < self.edges.len()
            invariant
                i <= self.edges.len(),
                all == self.edges.deep_view(),
                wanted == (|e: EdgeView| edge_fakes(e, node, to@)),
                first_edge(all, wanted, 0) == first_edge(all, wanted, i as nat),
            decreases self.edges.len() - i,
        {
            let edge = &self.edges[i];
            assert(all[i as int] == edge.deep_view());
            let casts = match &edge.transition {
                QueryGraphEdgeTransition::InterfaceObjectFakeDownCast { to_type_name, .. } => {
                    same(to_type_name, to)
                },
                _ => false,
            };
            if edge.head == node && casts {
                assert(wanted(all[i as int]));
                return Some(i);
            }
            assert(!wanted(all[i as int]));
            i += 1;
        }
        None
    }

    /// Whether one of the objects that implement an interface in a subgraph provides something
    /// with the field.
    pub fn has_an_implementation_with_provides(
        &self,
        source: &str,
        interface: &str,
        field: &str,
    ) -> (r: Result<bool, FederationError>)
        ensures
            result_view(r) == (match source_of(self.deep_view(), source@) {
                Ok(subgraph) => Ok(implementation_provides(subgraph, interface@, field@)),
                Err(error) => Err(error),
            }),
    {
        let subgraph = match self.source(source) {
            Ok(subgraph) => subgraph,
            Err(error) => {
                return Err(error);
            },
        };
        let position = CompositeTypeDefinitionPosition::Interface(interface.to_owned());
        let implementations = subgraph.schema.possible_runtime_types(&position);
        let ghost all = implementations.deep_view();
        let mut i: usize = 0;
        while i < implementations.len()
            invariant
                i <= all.len(),
                all == implementations.deep_view(),
                source_of(self.deep_view(), source@) == Ok::<SourceView, ErrorView>(
                    subgraph.deep_view(),
                ),
                all == runtime_types(
                    subgraph.deep_view().schema,
                    CompositeView::Interface(interface@),
                ),
                forall|j: int|
                    0 <= j < i ==> !field_has_directive(
                        subgraph.deep_view().schema,
                        #[trigger] all[j],
                        field@,
                        subgraph.deep_view().provides,
                    ),
            decreases all.len() - i,
        {
            if object_field_has(&subgraph.schema, implementations.at(i), field, &subgraph.provides) {
                assert(field_has_directive(
                    subgraph.deep_view().schema,
                    all[i as int],
                    field@,
                    subgraph.deep_view().provides,
                ));
                return Ok(true);
            }
            i += 1;
        }
        Ok(false)
    }

    /// Whether a node is an object that stands for an interface of the supergraph.
    pub fn is_interface_object(&self, node: usize) -> (r: Result<bool, FederationError>)
        ensures
            result_view(r) == is_interface_object(self.deep_view(), node),
    {
        let weight = match self.node_weight(node) {
            Ok(weight) => weight,
            Err(error) => {
                return Err(error);
            },
        };
        match &weight.type_ {
            QueryGraphNodeType::SchemaType(TypeDefinitionPosition::Object(name)) => {
                match self.source(&weight.source) {
                    Ok(subgraph) => match subgraph.schema.types.get(name) {
                        Some(ExtendedType::Object(o)) => Ok(
                            is_applied(&o.directives, &subgraph.interface_object),
                        ),
                        _ => Ok(false),
                    },
                    Err(error) => Err(error),
                }
            },
            _ => Ok(false),
        }
    }
}

pub(crate) fn object_field_has(schema: &Schema, ty: &str, field: &str, directive: &str) -> (r: bool)
    ensures
        r == field_has_directive(schema.deep_view(), ty@, field@, directive@),
{
    match schema.types.get(ty) {
        Some(ExtendedType::Object(o)) => match o.fields.get(field) {
            Some(definition) => is_applied(&definition.directives, directive),
            None => false,
        },
        _ => false,
    }
}

/// The set with the first `n` of some other names.
pub open spec fn set_with_all(s: Seq<Text>, more: Seq<Text>, n: nat) -> Seq<Text>
    decreases n,
{
    if n == 0 {
        s
    } else {
        set_with(set_with_all(s, more, (n - 1) as nat), more[n - 1])
    }
}

/// The names that are in both sets, in the order of the first.
pub open spec fn set_meet(s: Seq<Text>, t: Seq<Text>, n: nat) -> Seq<Text>
    decreases n,
{
    if n == 0 {
        Seq::empty()
    } else if t.contains(s[n - 1]) {
        set_with(set_meet(s, t, (n - 1) as nat), s[n - 1])
    } else {
        set_meet(s, t, (n - 1) as nat)
    }
}

/// Adds the names of another set.
pub fn add_all(s: &mut NameSet, more: &NameSet)
    ensures
        final(s).deep_view() == set_with_all(
            old(s).deep_view(),
            more.deep_view(),
            more.deep_view().len(),
        ),
{
    let mut i: usize = 0;
    while i < more.len()
        invariant
            i <= more.deep_view().len(),
            s.deep_view() == set_with_all(old(s).deep_view(), more.deep_view(), i as nat),
        decreases more.deep_view().len() - i,
    {
        s.insert(more.at(i).clone());
        i += 1;
    }
}

/// The names that are in both sets.
pub fn meet(s: &NameSet, t: &NameSet) -> (r: NameSet)
    ensures
        r.deep_view() == set_meet(s.deep_view(), t.deep_view(), s.deep_view().len()),
{
    let mut r = NameSet::new();
    let mut i: usize = 0;
    while i < s.len()
        invariant
            i <= s.deep_view().len(),
            r.deep_view() == set_meet(s.deep_view(), t.deep_view(), i as nat),
        decreases s.deep_view().len() - i,
    {
        if t.contains(s.at(i)) {
            r.insert(s.at(i).clone());
        }
        i += 1;
    }
    r
}

/// The object types that a field can return, for the first `n` types that have it.
pub open spec fn field_runtime_types(
    schema: SchemaView,
    types: Seq<Text>,
    field: Text,
    n: nat,
) -> Result<Seq<Text>, ErrorView>
    decreases n,
{
    if n == 0 {
        Ok(Seq::empty())
    } else {
        match field_runtime_types(schema, types, field, (n - 1) as nat) {
            Err(error) => Err(error),
            Ok(before) => match field_definition(schema, types[n - 1], field) {
                None => Ok(before),
                Some(definition) => match get_type(schema, inner_name(definition.ty)) {
                    Err(error) => Err(error),
                    Ok(position) => match as_composite(position) {
                        None => Err(internal_error("Unexpectedly found a type without fields"@)),
                        Some(composite) => {
                            let more = runtime_types(schema, composite);
                            Ok(set_with_all(before, more, more.len()))
                        },
                    },
                },
            },
        }
    }
}

/// The object types at the end of an edge that is taken from some object types. Without an edge
/// they stay.
pub open spec fn advanced_runtime_types(
    graph: GraphView,
    types: Seq<Text>,
    edge: Option<usize>,
) -> Result<Seq<Text>, ErrorView> {
    match edge {
        None => Ok(types),
        Some(index) => match edge_weight(graph, index) {
            Err(error) => Err(error),
            Ok(weight) => match node_weight(graph, weight.tail) {
                Err(error) => Err(error),
                Ok(tail) => match tail.type_ {
                    NodeTypeView::FederatedRootType(_) => Err(
                        internal_error(
                            "Unexpectedly encountered federation root node as tail node."@,
                        ),
                    ),
                    NodeTypeView::SchemaType(position) => advanced_by(
                        graph,
                        types,
                        weight.transition,
                        tail.source,
                        as_composite(position),
                    ),
                },
            },
        },
    }
}

/// The object types at the end of a transition to a type of a subgraph.
pub open spec fn advanced_by(
    graph: GraphView,
    types: Seq<Text>,
    transition: TransitionView,
    tail_source: Text,
    tail: Option<CompositeView>,
) -> Result<Seq<Text>, ErrorView> {
    match transition {
        TransitionView::FieldCollection { source, field_definition_position, is_part_of_provides } => {
            match tail {
                None => Ok(Seq::empty()),
                Some(_) => match source_of(graph, source) {
                    Err(error) => Err(error),
                    Ok(subgraph) => field_runtime_types(
                        subgraph.schema,
                        types,
                        field_definition_position.field_name,
                        types.len(),
                    ),
                },
            }
        },
        TransitionView::Downcast { source, from_type_position, to_type_position } => {
            match source_of(graph, source) {
                Err(error) => Err(error),
                Ok(subgraph) => Ok(
                    set_meet(types, runtime_types(subgraph.schema, to_type_position), types.len()),
                ),
            }
        },
        TransitionView::InterfaceObjectFakeDownCast { source, from_type_position, to_type_name } =>
            Ok(types),
        _ => match tail {
            None => Err(internal_error("Unexpectedly found a type without fields"@)),
            Some(position) => match source_of(graph, tail_source) {
                Err(error) => Err(error),
                Ok(subgraph) => Ok(runtime_types(subgraph.schema, position)),
            },
        },
    }
}

fn collect_field_runtime_types(schema: &Schema, types: &NameSet, field: &str) -> (r: Result<
    NameSet,
    FederationError,
>)
    ensures
        result_view(r) == field_runtime_types(
            schema.deep_view(),
            types.deep_view(),
            field@,
            types.deep_view().len(),
        ),
{
    let ghost all = types.deep_view();
    let mut found = NameSet::new();
    let mut i: usize = 0;
    while i < types.len()
        invariant
            i <= all.len(),
            all == types.deep_view(),
            field_runtime_types(schema.deep_view(), all, field@, i as nat) == Ok::<
                Seq<Text>,
                ErrorView,
            >(found.deep_view()),
        decreases all.len() - i,
    {
        if let Some(definition) = schema.get_field(types.at(i), field) {
            match schema.get_type(definition.ty.inner_named_type()) {
                Err(error) => {
                    proof {
                        lemma_runtime_error(schema.deep_view(), all, field@, i as nat + 1);
                    }
                    return Err(error);
                },
                Ok(position) => match position.to_composite() {
                    None => {
                        proof {
                            lemma_runtime_error(schema.deep_view(), all, field@, i as nat + 1);
                        }
                        return Err(
                            FederationError::internal("Unexpectedly found a type without fields"),
                        );
                    },
                    Some(composite) => {
                        let more = schema.possible_runtime_types(&composite);
                        add_all(&mut found, &more);
                    },
                },
            }
        }
        i += 1;
    }
    Ok(found)
}

proof fn lemma_runtime_error(schema: SchemaView, types: Seq<Text>, field: Text, n: nat)
    requires
        n <= types.len(),
        field_runtime_types(schema, types, field, n) is Err,
    ensures
        field_runtime_types(schema, types, field, types.len()) == field_runtime_types(
            schema,
            types,
            field,
            n,
        ),
    decreases types.len() - n,
{
    if n < types.len() {
        lemma_runtime_error(schema, types, field, n + 1);
    }
}

impl QueryGraph {
    /// The object types at the end of an edge that is taken from some object types.
    pub fn advance_possible_runtime_types(&self, types: &NameSet, edge: Option<usize>) -> (r: Result<
        NameSet,
        FederationError,
    >)
        ensures
            result_view(r) == advanced_runtime_types(self.deep_view(), types.deep_view(), edge),
    {
        let index: usize = match edge {
            None => {
                return Ok(types.clone());
            },
            Some(index) => index,
        };
        let weight = match self.edge_weight(index) {
            Ok(weight) => weight,
            Err(error) => {
                return Err(error);
            },
        };
        let tail = match self.node_weight(weight.tail) {
            Ok(tail) => tail,
            Err(error) => {
                return Err(error);
            },
        };
        let position = match &tail.type_ {
            QueryGraphNodeType::FederatedRootType(_) => {
                return Err(
                    FederationError::internal(
                        "Unexpectedly encountered federation root node as tail node.",
                    ),
                );
            },
            QueryGraphNodeType::SchemaType(position) => position.to_composite(),
        };
        match &weight.transition {
            QueryGraphEdgeTransition::FieldCollection {
                source,
                field_definition_position,
                is_part_of_provides: _,
            } => {
                if position.is_none() {
                    return Ok(NameSet::new());
                }
                match self.source(source) {
                    Ok(subgraph) => collect_field_runtime_types(
                        &subgraph.schema,
                        types,
                        &field_definition_position.field_name,
                    ),
                    Err(error) => Err(error),
                }
            },
            QueryGraphEdgeTransition::Downcast {
                source,
                from_type_position: _,
                to_type_position,
            } => match self.source(source) {
                Ok(subgraph) => {
                    let targets = subgraph.schema.possible_runtime_types(to_type_position);
                    Ok(meet(types, &targets))
                },
                Err(error) => Err(error),
            },
            QueryGraphEdgeTransition::InterfaceObjectFakeDownCast { .. } => Ok(types.clone()),
            QueryGraphEdgeTransition::KeyResolution
            | QueryGraphEdgeTransition::RootTypeResolution
            | QueryGraphEdgeTransition::SubgraphEnteringTransition => match &position {
                None => Err(FederationError::internal("Unexpectedly found a type without fields")),
                Some(position) => match self.source(&tail.source) {
                    Ok(subgraph) => Ok(subgraph.schema.possible_runtime_types(position)),
                    Err(error) => Err(error),
                },
            },
        }
    }
}

} // verus!
