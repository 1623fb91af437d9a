//! The abstract syntax tree that the parser builds.

use crate::errors::Span;
use vstd::prelude::*;

verus! {

/// The type of a value, told from the value's form alone.
#[derive(Clone, Copy, Debug, PartialEq, Eq, Hash, Structural)]
pub enum Type {
    Reference,
    Void,
    String,
    Int,
    Float,
    Boolean,
    Null,
}

/// A value written in the source text: what a declaration, an assignment, a
/// call or a statement is given.
#[derive(Debug, PartialEq)]
pub enum TypedValue {
    /// A reference to something by its name.
    IdentVal(String),
    StringVal(String),
    IntVal(i64),
    /// A number that is no `IntVal`; the payload is its decimal notation.
    FloatVal(String),
    BoolVal(bool),
    NullVal,
}

/// A [`TypedValue`] with its texts as character sequences.
pub enum ValueView {
    IdentVal(Seq<char>),
    StringVal(Seq<char>),
    IntVal(i64),
    FloatVal(Seq<char>),
    BoolVal(bool),
    NullVal,
}

/// The type of a value: one type for each form of value.
pub open spec fn type_of(value: ValueView) -> Type {
    match value {
        ValueView::IdentVal(_) => Type::Reference,
        ValueView::StringVal(_) => Type::String,
        ValueView::IntVal(_) => Type::Int,
        ValueView::FloatVal(_) => Type::Float,
        ValueView::BoolVal(_) => Type::Boolean,
        ValueView::NullVal => Type::Null,
    }
}

/// A variable declared as `is_mutable` with a value of type `declared` may
/// be given a value of type `assigned` if it is mutable and the two types
/// are the same.
pub open spec fn may_reassign(is_mutable: bool, declared: Type, assigned: Type) -> bool {
    is_mutable && declared == assigned
}

impl View for TypedValue {
    type V = ValueView;

    open spec fn view(&self) -> ValueView {
        match self {
            TypedValue::IdentVal(name) => ValueView::IdentVal(name@),
            TypedValue::StringVal(text) => ValueView::StringVal(text@),
            TypedValue::IntVal(number) => ValueView::IntVal(*number),
            TypedValue::FloatVal(text) => ValueView::FloatVal(text@),
            TypedValue::BoolVal(value) => ValueView::BoolVal(*value),
            TypedValue::NullVal => ValueView::NullVal,
        }
    }
}

impl Clone for TypedValue {
    fn clone(&self) -> (copy: TypedValue)
        ensures
            copy@ == self@,
    {
        match self {
            TypedValue::IdentVal(name) => TypedValue::IdentVal(name.clone()),
            TypedValue::StringVal(text) => TypedValue::StringVal(text.clone()),
            TypedValue::IntVal(number) => TypedValue::IntVal(*number),
            TypedValue::FloatVal(text) => TypedValue::FloatVal(text.clone()),
            TypedValue::BoolVal(value) => TypedValue::BoolVal(*value),
            TypedValue::NullVal => TypedValue::NullVal,
        }
    }
}

impl TypedValue {
    /// The type of this value.
    pub fn value_type(&self) -> (value_type: Type)
        ensures
            value_type == type_of(self@),
    {
        match self {
            TypedValue::IdentVal(_) => Type::Reference,
            TypedValue::StringVal(_) => Type::String,
            TypedValue::IntVal(_) => Type::Int,
            TypedValue::FloatVal(_) => Type::Float,
            TypedValue::BoolVal(_) => Type::Boolean,
            TypedValue::NullVal => Type::Null,
        }
    }

    /// Whether a variable that was declared as `is_mutable` with the value
    /// `declared` may be given this value.
    pub fn may_replace(&self, is_mutable: bool, declared: &TypedValue) -> (allowed: bool)
        ensures
            allowed == may_reassign(is_mutable, type_of(declared@), type_of(self@)),
    {
        is_mutable && declared.value_type() == self.value_type()
    }
}

/// What a list of values holds, in order.
pub open spec fn value_views(values: Seq<TypedValue>) -> Seq<ValueView> {
    values.map_values(|value: TypedValue| value@)
}

/// One parameter of a function: its name and its type.
#[derive(Debug, PartialEq, Eq)]
pub struct Param {
    pub name: String,
    pub param_type: Type,
}

/// A [`Param`] with its name as a character sequence.
pub struct ParamView {
    pub name: Seq<char>,
    pub param_type: Type,
}

impl View for Param {
    type V = ParamView;

    open spec fn view(&self) -> ParamView {
        ParamView { name: self.name@, param_type: self.param_type }
    }
}

/// What a list of parameters holds, in order.
pub open spec fn param_views(params: Seq<Param>) -> Seq<ParamView> {
    params.map_values(|param: Param| param@)
}

/// No two parameters of the list have the same name.
pub open spec fn distinct_names(params: Seq<ParamView>) -> bool {
    forall|i: int, j: int|
        0 <= i < j < params.len() ==> (#[trigger] params[i]).name != (#[trigger] params[j]).name
}

/// A node of the abstract syntax tree. Every node but `Empty` carries the
/// span of the source text that it was built from.
#[allow(inconsistent_fields)]
#[derive(Debug, PartialEq)]
pub enum AstNode {
    /// Nothing: the absent branch of a conditional.
    Empty,
    /// A whole source unit.
    Document { span: Span, file_name: String, body: Box<AstNode> },
    /// A sequence of nodes: the top level of a document, or what stands
    /// between a pair of braces.
    Block { span: Span, body: Vec<AstNode> },
    /// A reference to something by its name.
    Identifier { span: Span, name: String },
    /// A call of a function with its arguments.
    FunctionCall { span: Span, name: String, param_list: Vec<TypedValue> },
    /// The declaration of a function. Its parameters are in the order in
    /// which they were written, and no two have the same name.
    FuncDeclaration { span: Span, name: String, params: Vec<Param>, returns: Type, body: Box<AstNode> },
    /// The declaration of a variable with its first value.
    VarDeclaration { span: Span, name: String, is_mutable: bool, is_static: bool, value: TypedValue },
    /// The assignment of a new value to a variable.
    VarAssignment { span: Span, name: String, new_value: TypedValue },
    /// A return from the function, with or without a value.
    Return { span: Span, value: Option<TypedValue> },
    /// A conditional; `otherwise` is `Empty`, a block or another conditional.
    Conditional { span: Span, condition: TypedValue, body: Box<AstNode>, otherwise: Box<AstNode> },
    /// A loop that runs while `condition` holds.
    WhileLoop { span: Span, condition: TypedValue, body: Box<AstNode> },
    /// A loop that runs once for each item of `items`.
    ForLoop { span: Span, items: TypedValue, body: Box<AstNode> },
}

/// An [`AstNode`] with its texts as character sequences and its lists as
/// sequences.
#[allow(inconsistent_fields)]
pub enum AstView {
    Empty,
    Document { span: Span, file_name: Seq<char>, body: Box<AstView> },
    Block { span: Span, body: Seq<AstView> },
    Identifier { span: Span, name: Seq<char> },
    FunctionCall { span: Span, name: Seq<char>, param_list: Seq<ValueView> },
    FuncDeclaration {
        span: Span,
        name: Seq<char>,
        params: Seq<ParamView>,
        returns: Type,
        body: Box<AstView>,
    },
    VarDeclaration { span: Span, name: Seq<char>, is_mutable: bool, is_static: bool, value: ValueView },
    VarAssignment { span: Span, name: Seq<char>, new_value: ValueView },
    Return { span: Span, value: Option<ValueView> },
    Conditional { span: Span, condition: ValueView, body: Box<AstView>, otherwise: Box<AstView> },
    WhileLoop { span: Span, condition: ValueView, body: Box<AstView> },
    ForLoop { span: Span, items: ValueView, body: Box<AstView> },
}

/// What a tree holds.
pub open spec fn node_view(node: AstNode) -> AstView
    decreases node,
{
    match node {
        AstNode::Empty => AstView::Empty,
        AstNode::Document { span, file_name, body } => AstView::Document {
            span,
            file_name: file_name@,
            body: Box::new(node_view(*body)),
        },
        AstNode::Block { span, body } => AstView::Block {
            span,
            body: Seq::new(
                body@.len(),
                |i: int|
                    if 0 <= i < body@.len() {
                        node_view(body@[i])
                    } else {
                        AstView::Empty
                    },
            ),
        },
        AstNode::Identifier { span, name } => AstView::Identifier { span, name: name@ },
        AstNode::FunctionCall { span, name, param_list } => AstView::FunctionCall {
            span,
            name: name@,
            param_list: value_views(param_list@),
        },
        AstNode::FuncDeclaration { span, name, params, returns: result, body } => AstView::FuncDeclaration {
            span,
            name: name@,
            params: param_views(params@),
            returns: result,
            body: Box::new(node_view(*body)),
        },
        AstNode::VarDeclaration { span, name, is_mutable, is_static, value } => AstView::VarDeclaration {
            span,
            name: name@,
            is_mutable,
            is_static,
            value: value@,
        },
        AstNode::VarAssignment { span, name, new_value } => AstView::VarAssignment {
            span,
            name: name@,
            new_value: new_value@,
        },
        AstNode::Return { span, value } => AstView::Return {
            span,
            value: match value {
                Some(value) => Some(value@),
                None => None,
            },
        },
        AstNode::Conditional { span, condition, body, otherwise } => AstView::Conditional {
            span,
            condition: condition@,
            body: Box::new(node_view(*body)),
            otherwise: Box::new(node_view(*otherwise)),
        },
        AstNode::WhileLoop { span, condition, body } => AstView::WhileLoop {
            span,
            condition: condition@,
            body: Box::new(node_view(*body)),
        },
        AstNode::ForLoop { span, items, body } => AstView::ForLoop {
            span,
            items: items@,
            body: Box::new(node_view(*body)),
        },
    }
}

impl View for AstNode {
    type V = AstView;

    open spec fn view(&self) -> AstView {
        node_view(*self)
    }
}

/// What a list of trees holds, in order.
pub open spec fn node_views(nodes: Seq<AstNode>) -> Seq<AstView> {
    Seq::new(nodes.len(), |i: int| nodes[i]@)
}

/// The view of a block is made of the views of its nodes.
pub proof fn lemma_block_view(span: Span, body: Vec<AstNode>)
    ensures
        (AstNode::Block { span, body })@ == (AstView::Block { span, body: node_views(body@) }),
{
    let node = AstNode::Block { span, body };
    assert(node@->Block_body =~= node_views(body@));
}

impl AstNode {
    /// The span that the node carries; `Empty` carries none.
    pub open spec fn spec_span(view: AstView) -> Option<Span> {
        match view {
            AstView::Empty => None,
            AstView::Document { span, .. } => Some(span),
            AstView::Block { span, .. } => Some(span),
            AstView::Identifier { span, .. } => Some(span),
            AstView::FunctionCall { span, .. } => Some(span),
            AstView::FuncDeclaration { span, .. } => Some(span),
            AstView::VarDeclaration { span, .. } => Some(span),
            AstView::VarAssignment { span, .. } => Some(span),
            AstView::Return { span, .. } => Some(span),
            AstView::Conditional { span, .. } => Some(span),
            AstView::WhileLoop { span, .. } => Some(span),
            AstView::ForLoop { span, .. } => Some(span),
        }
    }

    /// The span of the source text that the node was built from.
    pub fn span(&self) -> (span: Option<Span>)
        ensures
            span == Self::spec_span(self@),
    {
        match self {
            AstNode::Empty => None,
            AstNode::Document { span, .. } => Some(*span),
            AstNode::Block { span, .. } => Some(*span),
            AstNode::Identifier { span, .. } => Some(*span),
            AstNode::FunctionCall { span, .. } => Some(*span),
            AstNode::FuncDeclaration { span, .. } => Some(*span),
            AstNode::VarDeclaration { span, .. } => Some(*span),
            AstNode::VarAssignment { span, .. } => Some(*span),
            AstNode::Return { span, .. } => Some(*span),
            AstNode::Conditional { span, .. } => Some(*span),
            AstNode::WhileLoop { span, .. } => Some(*span),
            AstNode::ForLoop { span, .. } => Some(*span),
        }
    }
}

} // verus!
