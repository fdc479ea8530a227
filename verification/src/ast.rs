//! The expression AST: the tagged-union value types the parser produces,
//! together with their mathematical views.
//!
//! The AST is a pure value type: nodes are immutable once constructed and
//! carry no formatting metadata.  Contracts speak of an AST node through its
//! deep view, an [`ExprView`], in which every string is a `Seq<char>` and
//! every argument vector is a `Seq` of views.
//!
//! A numeric literal keeps the exact source text of the number (already
//! validated against the decimal grammar); the library never does floating
//! point arithmetic itself, so converting that text to a machine float is
//! left to the caller.

use vstd::prelude::*;

verus! {

/// A parsed ARM expression.
#[derive(Debug, PartialEq)]
pub enum ArmExpression {
    /// A concrete constant.
    Literal(LiteralValue),
    /// A call of one of the known template functions.
    Function(FunctionExpression),
    /// A reference to a template parameter.
    Parameter(String),
    /// A reference to a template variable.
    Variable(String),
    /// A reference to a deployed resource's runtime properties.
    Reference(ReferenceExpression),
    /// Absence of an expression: the field was the empty string.
    Empty,
}

/// A literal constant inside an expression.
#[derive(Debug, Clone, PartialEq)]
pub enum LiteralValue {
    /// A string constant.
    String(String),
    /// A numeric constant, kept as its exact source text.  The text always
    /// matches the decimal grammar of a 64-bit float.
    Number(String),
    /// A boolean constant.
    Boolean(bool),
}

/// A function call node: the function and its arguments in declaration order.
#[derive(Debug, PartialEq)]
pub struct FunctionExpression {
    pub name: FunctionName,
    pub arguments: Vec<ArmExpression>,
}

/// A reference to a deployed resource.
#[derive(Debug, Clone, PartialEq)]
pub struct ReferenceExpression {
    pub resource_name: String,
    /// Some references carry an explicit API version.
    pub api_version: Option<String>,
}

/// The closed set of template functions the parser accepts.
#[derive(Debug, Clone, Copy, PartialEq, Eq)]
pub enum FunctionName {
    Concat,
    ResourceId,
    CopyIndex,
    Format,
    If,
    ResourceGroup,
}

/// The mathematical view of a [`LiteralValue`].
pub enum LiteralView {
    String(Seq<char>),
    Number(Seq<char>),
    Boolean(bool),
}

/// The mathematical view of an [`ArmExpression`].
pub enum ExprView {
    Literal(LiteralView),
    Function(FunctionName, Seq<ExprView>),
    Parameter(Seq<char>),
    Variable(Seq<char>),
    Reference(Seq<char>, Option<Seq<char>>),
    Empty,
}

impl DeepView for LiteralValue {
    type V = LiteralView;

    open spec fn deep_view(&self) -> LiteralView {
        match self {
            LiteralValue::String(s) => LiteralView::String(s@),
            LiteralValue::Number(s) => LiteralView::Number(s@),
            LiteralValue::Boolean(b) => LiteralView::Boolean(*b),
        }
    }
}

/// The view of one expression node.
pub open spec fn expr_view(e: ArmExpression) -> ExprView
    decreases e,
{
    match e {
        ArmExpression::Literal(l) => ExprView::Literal(l.deep_view()),
        ArmExpression::Function(f) => ExprView::Function(f.name, exprs_view(f.arguments@)),
        ArmExpression::Parameter(n) => ExprView::Parameter(n@),
        ArmExpression::Variable(n) => ExprView::Variable(n@),
        ArmExpression::Reference(r) => ExprView::Reference(
            r.resource_name@,
            match r.api_version {
                Some(v) => Some(v@),
                None => None,
            },
        ),
        ArmExpression::Empty => ExprView::Empty,
    }
}

/// The views of a sequence of expression nodes, in order.
pub open spec fn exprs_view(s: Seq<ArmExpression>) -> Seq<ExprView>
    decreases s,
{
    if s.len() == 0 {
        Seq::empty()
    } else {
        seq![expr_view(s[0])] + exprs_view(s.drop_first())
    }
}

impl DeepView for ArmExpression {
    type V = ExprView;

    open spec fn deep_view(&self) -> ExprView {
        expr_view(*self)
    }
}

/// Appending one node to a sequence appends its view.
pub proof fn lemma_exprs_view_push(s: Seq<ArmExpression>, e: ArmExpression)
    ensures
        exprs_view(s.push(e)) == exprs_view(s).push(expr_view(e)),
    decreases s.len(),
{
    if s.len() == 0 {
        assert(s =~= Seq::<ArmExpression>::empty());
        assert(s.push(e).drop_first() =~= Seq::<ArmExpression>::empty());
        assert(s.push(e)[0] == e);
        assert(seq![expr_view(e)] + Seq::<ExprView>::empty() =~= Seq::<ExprView>::empty().push(
            expr_view(e),
        ));
        assert(exprs_view(s) == Seq::<ExprView>::empty());
    } else {
        lemma_exprs_view_push(s.drop_first(), e);
        assert(s.push(e).drop_first() =~= s.drop_first().push(e));
        assert(s.push(e)[0] == s[0]);
        assert(exprs_view(s.push(e)) == seq![expr_view(s[0])] + exprs_view(
            s.drop_first().push(e),
        ));
        assert(exprs_view(s) == seq![expr_view(s[0])] + exprs_view(s.drop_first()));
        assert(seq![expr_view(s[0])] + exprs_view(s.drop_first()).push(expr_view(e)) =~= (seq![
            expr_view(s[0]),
        ] + exprs_view(s.drop_first())).push(expr_view(e)));
    }
}

} // verus!
