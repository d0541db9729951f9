//! Advancing a single path.

use crate::error::FederationError;
use crate::operation::Field;
use crate::operation::InlineFragment;
use crate::query_graph::advance::advanced_path;
use crate::query_graph::advance::advanced_with_field;
use crate::query_graph::advance::advanced_with_fragment;
use crate::query_graph::advance::field_on_interface;
use crate::query_graph::advance::field_on_object;
use crate::query_graph::advance::field_on_union;
use crate::query_graph::advance::fragment_on_abstract;
use crate::query_graph::advance::fragment_on_object;
use crate::query_graph::advancer::as_expected;
use crate::query_graph::advancer::same_world;
use crate::query_graph::advancer::single_option;
use crate::query_graph::advancer::Advancer;
use crate::query_graph::elements::OpGraphPathContext;
use crate::query_graph::elements::OpPathElement;
use crate::query_graph::graph_path::OpGraphPath;
use crate::query_graph::graph_path::SimultaneousPaths;
use crate::query_graph::node_weight;
use crate::query_graph::steps::GraphPathSteps;
use crate::query_graph::texts::field_on_leaf_error;
use crate::query_graph::texts::fragment_on_leaf_error;
use crate::query_graph::QueryGraphNodeType;
use crate::schema::position::CompositeTypeDefinitionPosition;
use crate::schema::position::TypeDefinitionPosition;
use crate::text::same;
use vstd::prelude::*;

verus! {

impl OpGraphPath {
    /// The options of the path for an element of an operation, without taking a step that collects
    /// nothing first, and whether all of them come from taking an interface apart. The options
    /// mean what those of
    /// [`SimultaneousPathsWithLazyIndirectPaths::advance_with_operation_element`] mean.
    pub fn advance_with_operation_element<S: GraphPathSteps, C: Fn() -> Result<(), FederationError>>(
        &self,
        operation_element: &OpPathElement,
        context: &OpGraphPathContext,
        advancer: &mut Advancer<S, C>,
        budget: usize,
    ) -> (r: Result<(Option<Vec<SimultaneousPaths>>, Option<bool>), FederationError>)
        requires
            old(advancer).ready(),
        ensures
            same_world(*final(advancer), *old(advancer)),
            as_expected(
                r,
                final(advancer).ids(),
                advanced_path(
                    old(advancer).world(),
                    self.deep_view(),
                    operation_element.deep_view(),
                    context.deep_view(),
                    old(advancer).ids(),
                    budget as nat,
                ),
                *old(advancer).check_cancellation,
            ),
        decreases budget, 3int,
    {
        proof {
            reveal(advanced_path);
            reveal(advanced_with_field);
            reveal(advanced_with_fragment);
            reveal(field_on_interface);
            reveal(fragment_on_abstract);
        }
        let tail = match advancer.graph.node_weight(self.tail) {
            Ok(tail) => tail,
            Err(error) => {
                return Err(error);
            },
        };
        let position = match &tail.type_ {
            QueryGraphNodeType::FederatedRootType(_) => {
                return Ok((None, None));
            },
            QueryGraphNodeType::SchemaType(position) => position,
        };
        match operation_element {
            OpPathElement::Field(field) => match position {
                TypeDefinitionPosition::Object(object) => match self.field_on_object(
                    advancer,
                    tail,
                    object,
                    field,
                    context,
                ) {
                    Err(error) => Err(error),
                    Ok(Some(path)) => Ok((Some(single_option(path)), None)),
                    Ok(None) => Ok((None, None)),
                },
                TypeDefinitionPosition::Interface(interface) => self.field_on_interface(
                    operation_element,
                    field,
                    tail,
                    interface,
                    context,
                    advancer,
                    budget,
                ),
                TypeDefinitionPosition::Union(_) => match self.field_on_union(
                    advancer,
                    field,
                    context,
                ) {
                    Err(error) => Err(error),
                    Ok(Some(path)) => Ok((Some(single_option(path)), None)),
                    Ok(None) => Ok((None, None)),
                },
                _ => Err(field_on_leaf_error(field, position.name())),
            },
            OpPathElement::InlineFragment(fragment) => {
                let wanted = match &fragment.type_condition_position {
                    Some(condition) => condition.name(),
                    None => position.name(),
                };
                if same(wanted, position.name()) {
                    return match self.keep_fragment(advancer, fragment) {
                        Ok(path) => Ok((Some(single_option(path)), None)),
                        Err(error) => Err(error),
                    };
                }
                match position {
                    TypeDefinitionPosition::Object(object) => match self.fragment_on_object(
                        advancer,
                        tail,
                        object,
                        fragment,
                        wanted,
                        context,
                    ) {
                        Ok(options) => Ok((options, None)),
                        Err(error) => Err(error),
                    },
                    TypeDefinitionPosition::Interface(interface) => {
                        let abstract_position = CompositeTypeDefinitionPosition::Interface(
                            interface.clone(),
                        );
                        self.fragment_on_abstract(
                            fragment,
                            tail,
                            &abstract_position,
                            wanted,
                            context,
                            advancer,
                            budget,
                        )
                    },
                    TypeDefinitionPosition::Union(union) => {
                        let abstract_position = CompositeTypeDefinitionPosition::Union(
                            union.clone(),
                        );
                        self.fragment_on_abstract(
                            fragment,
                            tail,
                            &abstract_position,
                            wanted,
                            context,
                            advancer,
                            budget,
                        )
                    },
                    _ => Err(fragment_on_leaf_error(fragment, position.name())),
                }
            },
        }
    }
}

} // verus!
