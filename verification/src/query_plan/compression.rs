//! What is sent to a subgraph, as a document.

use crate::compiler::document_fits;
use crate::compiler::are_valid;
use crate::compiler::schema_fits;
use crate::compiler::validate_document;
use crate::error::internal_error;
use crate::error::ErrorKind;
use crate::error::ErrorView;
use crate::error::FederationError;
use crate::operation::executable::DocumentView;
use crate::operation::executable::ExecutableDocument;
use crate::operation::executable::ExecutableOperationView;
use crate::operation::operations::Operation;
use crate::operation::print::printed_operation;
use crate::query_plan::dependency_graph::SubgraphOperationCompression;
use crate::text::begins_with;
use crate::text::joined;
use vstd::prelude::*;

verus! {

/// An error as it is reported: planning is not expected to make an invalid document.
pub open spec fn reported(error: ErrorView) -> ErrorView {
    if error.kind == ErrorKind::InvalidGraphql {
        internal_error(
            "Query planning produced an invalid subgraph operation.\n"@ + error.message,
        )
    } else {
        error
    }
}

fn report(error: FederationError) -> (r: FederationError)
    ensures
        r.deep_view() == reported(error.deep_view()),
{
    if error.kind == ErrorKind::InvalidGraphql {
        FederationError::internal(
            &joined("Query planning produced an invalid subgraph operation.\n", &error.message),
        )
    } else {
        error
    }
}

/// Whether an error says that a document is invalid.
pub open spec fn reports_invalid(error: ErrorView) -> bool {
    error.kind == ErrorKind::Internal && begins_with(
        error.message,
        "Query planning produced an invalid subgraph operation.\n"@,
    )
}

proof fn lemma_reports(error: ErrorView)
    requires
        error.kind == ErrorKind::InvalidGraphql,
    ensures
        reports_invalid(reported(error)),
{
    let begin = "Query planning produced an invalid subgraph operation.\n"@;
    assert((begin + error.message).take(begin.len() as int) =~= begin);
}

/// The document of one operation.
pub open spec fn document_of(operation: ExecutableOperationView) -> DocumentView {
    DocumentView { operations: seq![operation], fragments: Seq::empty() }
}

impl SubgraphOperationCompression {
    /// The document that is sent to a subgraph: made by `generate_fragments`, or the operation as it
    /// is written, with its values made fit by `coerce_values`. The latter has to be valid.
    pub fn compress<
        G: Fn(Operation) -> Result<ExecutableDocument, FederationError>,
        C: Fn(ExecutableDocument) -> ExecutableDocument,
    >(&self, operation: Operation, generate_fragments: &G, coerce_values: &C) -> (r: Result<
        ExecutableDocument,
        FederationError,
    >)
        requires
            generate_fragments.requires((operation,)),
            forall|document: ExecutableDocument| coerce_values.requires((document,)),
            schema_fits(operation.deep_view().schema),
            forall|document: ExecutableDocument, coerced: ExecutableDocument|
                printed_operation(operation.deep_view()) is Ok && document.deep_view()
                    == document_of(printed_operation(operation.deep_view())->Ok_0)
                    && #[trigger] coerce_values.ensures((document,), coerced) ==> document_fits(
                    coerced.deep_view(),
                ),
        ensures
            match self {
                SubgraphOperationCompression::GenerateFragments => generate_fragments.ensures(
                    (operation,),
                    r,
                ),
                SubgraphOperationCompression::Disabled => match printed_operation(
                    operation.deep_view(),
                ) {
                    Err(error) => r matches Err(e) && e.deep_view() == reported(error),
                    Ok(printed) => exists|
                        document: ExecutableDocument,
                        coerced: ExecutableDocument,
                    |
                        {
                            &&& document.deep_view() == document_of(printed)
                            &&& #[trigger] coerce_values.ensures((document,), coerced)
                            &&& if are_valid(
                                operation.deep_view().schema,
                                coerced.deep_view(),
                            ) {
                                r == Ok::<ExecutableDocument, FederationError>(coerced)
                            } else {
                                r matches Err(e) && reports_invalid(e.deep_view())
                            }
                        },
                },
            },
    {
        match self {
            SubgraphOperationCompression::GenerateFragments => generate_fragments(operation),
            SubgraphOperationCompression::Disabled => {
                let printed = match operation.to_executable() {
                    Ok(printed) => printed,
                    Err(error) => {
                        return Err(report(error));
                    },
                };
                let ghost view = printed.deep_view();
                let document = ExecutableDocument {
                    operations: vec![printed],
                    fragments: Vec::new(),
                };
                proof {
                    assert(document.deep_view().operations =~= seq![view]);
                    assert(document.deep_view().fragments =~= Seq::empty());
                }
                let ghost written = document;
                let coerced = coerce_values(document);
                assert(coerce_values.ensures((written,), coerced));
                match validate_document(&operation.schema, &coerced) {
                    Ok(_) => Ok(coerced),
                    Err(error) => {
                        proof {
                            lemma_reports(error.deep_view());
                        }
                        Err(report(error))
                    },
                }
            },
        }
    }
}

} // verus!
