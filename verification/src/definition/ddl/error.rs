//! Errors found while reading a definition tree.
use vstd::prelude::*;
use crate::definition::base::node::{Node, NodeView};

verus! {

#[derive(Debug, PartialEq)]
pub enum Error {
    UnexpectedNode { node_display_string: String },
    NameRequired { node_display_string: String },
    ChildNodesRequired { node_display_string: String },
    AttributeRequired { node_display_string: String, attribute: &'static str },
    InvalidTypeAttribute { node_display_string: String, expected: &'static str },
    InvalidTypeExpression { type_expression: String },
    InvalidTableReference { table_reference: String },
    InvalidColumnReference { column_reference: String },
    HasErrors { node_display_string: String, errors: Vec<Error> },
}

/// The mathematical model of an [`Error`].
pub ghost enum ErrorView {
    UnexpectedNode { node_display_string: Seq<char> },
    NameRequired { node_display_string: Seq<char> },
    ChildNodesRequired { node_display_string: Seq<char> },
    AttributeRequired { node_display_string: Seq<char>, attribute: Seq<char> },
    InvalidTypeAttribute { node_display_string: Seq<char>, expected: Seq<char> },
    InvalidTypeExpression { type_expression: Seq<char> },
    InvalidTableReference { table_reference: Seq<char> },
    InvalidColumnReference { column_reference: Seq<char> },
    HasErrors { node_display_string: Seq<char>, errors: Seq<ErrorView> },
}

pub open spec fn error_view(e: Error) -> ErrorView
    decreases e,
{
    match e {
        Error::UnexpectedNode { node_display_string } => ErrorView::UnexpectedNode {
            node_display_string: node_display_string@,
        },
        Error::NameRequired { node_display_string } => ErrorView::NameRequired {
            node_display_string: node_display_string@,
        },
        Error::ChildNodesRequired { node_display_string } => ErrorView::ChildNodesRequired {
            node_display_string: node_display_string@,
        },
        Error::AttributeRequired { node_display_string, attribute } => ErrorView::AttributeRequired {
            node_display_string: node_display_string@,
            attribute: attribute@,
        },
        Error::InvalidTypeAttribute { node_display_string, expected } => ErrorView::InvalidTypeAttribute {
            node_display_string: node_display_string@,
            expected: expected@,
        },
        Error::InvalidTypeExpression { type_expression } => ErrorView::InvalidTypeExpression {
            type_expression: type_expression@,
        },
        Error::InvalidTableReference { table_reference } => ErrorView::InvalidTableReference {
            table_reference: table_reference@,
        },
        Error::InvalidColumnReference { column_reference } => ErrorView::InvalidColumnReference {
            column_reference: column_reference@,
        },
        Error::HasErrors { node_display_string, errors } => ErrorView::HasErrors {
            node_display_string: node_display_string@,
            errors: errors_view(errors@),
        },
    }
}

pub open spec fn errors_view(s: Seq<Error>) -> Seq<ErrorView>
    decreases s,
{
    if s.len() == 0 {
        Seq::empty()
    } else {
        errors_view(s.drop_last()).push(error_view(s.last()))
    }
}

impl View for Error {
    type V = ErrorView;

    open spec fn view(&self) -> ErrorView {
        error_view(*self)
    }
}

/// The errors of a list pushed one after another: its view grows by the view of the new one.
pub proof fn lemma_errors_view_push(s: Seq<Error>, e: Error)
    ensures
        errors_view(s.push(e)) == errors_view(s).push(error_view(e)),
{
    assert(s.push(e).drop_last() =~= s);
}

pub proof fn lemma_errors_view(s: Seq<Error>)
    ensures
        errors_view(s).len() == s.len(),
        forall|i: int| 0 <= i < s.len() ==> #[trigger] errors_view(s)[i] == error_view(s[i]),
    decreases s.len(),
{
    if s.len() > 0 {
        lemma_errors_view(s.drop_last());
        assert forall|i: int| 0 <= i < s.len() implies #[trigger] errors_view(s)[i] == error_view(s[i]) by {
            if i < s.len() - 1 {
                assert(s.drop_last()[i] == s[i]);
            }
        }
    }
}

/// The model of a definition read from a node, or of the error it gave.
pub open spec fn result_view<T: View>(r: Result<T, Error>) -> Result<T::V, ErrorView> {
    match r {
        Ok(t) => Ok(t@),
        Err(e) => Err(e@),
    }
}

pub open spec fn unexpected_node(n: NodeView) -> ErrorView {
    ErrorView::UnexpectedNode { node_display_string: n.display() }
}

pub open spec fn name_required(n: NodeView) -> ErrorView {
    ErrorView::NameRequired { node_display_string: n.display() }
}

pub open spec fn child_nodes_required(n: NodeView) -> ErrorView {
    ErrorView::ChildNodesRequired { node_display_string: n.display() }
}

pub open spec fn attribute_required(n: NodeView, attribute: Seq<char>) -> ErrorView {
    ErrorView::AttributeRequired { node_display_string: n.display(), attribute }
}

pub open spec fn invalid_type_attribute(n: NodeView, expected: Seq<char>) -> ErrorView {
    ErrorView::InvalidTypeAttribute { node_display_string: n.display(), expected }
}

pub open spec fn has_errors(n: NodeView, errors: Seq<ErrorView>) -> ErrorView {
    ErrorView::HasErrors { node_display_string: n.display(), errors }
}

/// The text an error is shown as.
pub open spec fn error_message(e: ErrorView) -> Seq<char>
    decreases e,
{
    match e {
        ErrorView::UnexpectedNode { node_display_string } => "unexpected node: "@ + node_display_string,
        ErrorView::NameRequired { node_display_string } => "name required: "@ + node_display_string,
        ErrorView::ChildNodesRequired { node_display_string } => "child nodes required: "@
            + node_display_string,
        ErrorView::AttributeRequired { node_display_string, attribute } => "attribute required: "@
            + node_display_string + " "@ + attribute,
        ErrorView::InvalidTypeAttribute { node_display_string, expected } => "invalid type attribute: "@
            + node_display_string + " expected "@ + expected,
        ErrorView::InvalidTypeExpression { type_expression } => "invalid type expression: "@
            + type_expression,
        ErrorView::InvalidTableReference { table_reference } => "invalid table reference: "@
            + table_reference,
        ErrorView::InvalidColumnReference { column_reference } => "invalid column reference: "@
            + column_reference,
        ErrorView::HasErrors { node_display_string, errors } => "has errors: "@ + node_display_string
            + nested_messages(errors),
    }
}

/// Each error of the list on a line of its own, indented by two spaces.
pub open spec fn nested_messages(errors: Seq<ErrorView>) -> Seq<char>
    decreases errors,
{
    if errors.len() == 0 {
        Seq::empty()
    } else {
        nested_messages(errors.drop_last()) + "\n  "@ + error_message(errors.last())
    }
}

impl Error {
    pub fn new_unexpected_node(node: &Node) -> (r: Error)
        ensures
            r@ == unexpected_node(node@),
    {
        Error::UnexpectedNode { node_display_string: node.display_string() }
    }

    pub fn new_name_required(node: &Node) -> (r: Error)
        ensures
            r@ == name_required(node@),
    {
        Error::NameRequired { node_display_string: node.display_string() }
    }

    pub fn new_child_nodes_required(node: &Node) -> (r: Error)
        ensures
            r@ == child_nodes_required(node@),
    {
        Error::ChildNodesRequired { node_display_string: node.display_string() }
    }

    pub fn new_attribute_required(node: &Node, attribute: &'static str) -> (r: Error)
        ensures
            r@ == attribute_required(node@, attribute@),
    {
        Error::AttributeRequired { node_display_string: node.display_string(), attribute }
    }

    pub fn new_invalid_type_attribute(node: &Node, expected: &'static str) -> (r: Error)
        ensures
            r@ == invalid_type_attribute(node@, expected@),
    {
        Error::InvalidTypeAttribute { node_display_string: node.display_string(), expected }
    }

    pub fn new_invalid_type_expression(type_expression: String) -> (r: Error)
        ensures
            r@ == (ErrorView::InvalidTypeExpression { type_expression: type_expression@ }),
    {
        Error::InvalidTypeExpression { type_expression }
    }

    pub fn new_invalid_table_reference(table_reference: String) -> (r: Error)
        ensures
            r@ == (ErrorView::InvalidTableReference { table_reference: table_reference@ }),
    {
        Error::InvalidTableReference { table_reference }
    }

    pub fn new_invalid_column_reference(column_reference: String) -> (r: Error)
        ensures
            r@ == (ErrorView::InvalidColumnReference { column_reference: column_reference@ }),
    {
        Error::InvalidColumnReference { column_reference }
    }

    pub fn new_has_errors(node: &Node, errors: Vec<Error>) -> (r: Error)
        ensures
            r@ == has_errors(node@, errors_view(errors@)),
    {
        Error::HasErrors { node_display_string: node.display_string(), errors }
    }

    /// The text this error is shown as; a list of errors shows each on a line of its own.
    pub fn message(&self) -> (r: String)
        ensures
            r@ == error_message(self@),
        decreases self,
    {
        let mut s = String::new();
        match self {
            Error::UnexpectedNode { node_display_string } => {
                s.append("unexpected node: ");
                s.append(node_display_string.as_str());
            },
            Error::NameRequired { node_display_string } => {
                s.append("name required: ");
                s.append(node_display_string.as_str());
            },
            Error::ChildNodesRequired { node_display_string } => {
                s.append("child nodes required: ");
                s.append(node_display_string.as_str());
            },
            Error::AttributeRequired { node_display_string, attribute } => {
                s.append("attribute required: ");
                s.append(node_display_string.as_str());
                s.append(" ");
                s.append(attribute);
            },
            Error::InvalidTypeAttribute { node_display_string, expected } => {
                s.append("invalid type attribute: ");
                s.append(node_display_string.as_str());
                s.append(" expected ");
                s.append(expected);
            },
            Error::InvalidTypeExpression { type_expression } => {
                s.append("invalid type expression: ");
                s.append(type_expression.as_str());
            },
            Error::InvalidTableReference { table_reference } => {
                s.append("invalid table reference: ");
                s.append(table_reference.as_str());
            },
            Error::InvalidColumnReference { column_reference } => {
                s.append("invalid column reference: ");
                s.append(column_reference.as_str());
            },
            Error::HasErrors { node_display_string, errors } => {
                s.append("has errors: ");
                s.append(node_display_string.as_str());
                let ghost prefix = s@;
                let ghost es = errors_view(errors@);
                proof {
                    lemma_errors_view(errors@);
                }
                for i in 0..errors.len()
                    invariant
                        es == errors_view(errors@),
                        es.len() == errors@.len(),
                        forall|j: int| 0 <= j < es.len() ==> #[trigger] es[j] == error_view(errors@[j]),
                        s@ == prefix + nested_messages(es.take(i as int)),
                        self@ == (ErrorView::HasErrors { node_display_string: node_display_string@, errors: es }),
                        *self == (Error::HasErrors { node_display_string: *node_display_string, errors: *errors }),
                {
                    proof {
                        vstd::std_specs::vec::axiom_vec_index_decreases(*errors, i as int);
                        assert(decreases_to!(*self => *errors));
                        assert(decreases_to!(*errors => errors[i as int]));
                    }
                    let m = errors[i].message();
                    s.append("\n  ");
                    s.append(m.as_str());
                    assert(es.take(i + 1).drop_last() =~= es.take(i as int));
                    assert(es.take(i + 1).last() == es[i as int]);
                    assert(s@ =~= prefix + nested_messages(es.take(i + 1)));
                }
                assert(es.take(errors@.len() as int) =~= es);
            },
        }
        s
    }
}

} // verus!
