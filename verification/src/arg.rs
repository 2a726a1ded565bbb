//! Arguments and expressions.
//!
//! An `Argument` is an unresolved operand inside a directive: a variable
//! name, a literal text, or a boxed sub-expression.  It is resolved against
//! a context only while the template renders, never at compile time, which
//! is what lets one compiled template be rendered against many contexts.

use vstd::prelude::*;

use crate::err::{TemplateError, ErrView};
use crate::numeral::{spec_is_numeral, spec_numeral_cmp, spec_cmp_frac, numeral_cmp, cmp_frac};
use crate::text::{chars_of, str_eq};
use crate::value::{
    Value, ValueView, Context, spec_value_text, spec_truthy, spec_kind_name,
};

verus! {

/// An operand of a directive, resolved at render time.
#[derive(Debug)]
pub enum Argument {
    /// A name looked up in the context.
    Variable(String),
    /// A constant text taken as it stands.
    Literal(String),
    /// A comparison or negation, evaluated against the context.
    Expression(Box<Expression>),
}

/// A comparison operator of a conditional directive.
#[derive(Debug, Clone, PartialEq, Eq, Structural)]
pub enum ComparisonOp {
    Equals,
    NotEquals,
    GreaterThan,
    LessThan,
    GreaterThanEquals,
    LessThanEquals,
}

/// An expression that evaluates to a boolean value.
#[derive(Debug)]
pub enum Expression {
    /// A binary comparison of two arguments.
    Comparison { left: Argument, op: ComparisonOp, right: Argument },
    /// The negation of an argument read as a boolean.
    Not(Argument),
}

/// The mathematical shape of an `Argument`.
pub enum ArgView {
    Variable(Seq<char>),
    Literal(Seq<char>),
    Expression(Box<ExprView>),
}

/// The mathematical shape of an `Expression`.
pub enum ExprView {
    Comparison { left: ArgView, op: ComparisonOp, right: ArgView },
    Not(ArgView),
}

pub open spec fn arg_view(a: Argument) -> ArgView
    decreases a,
{
    match a {
        Argument::Variable(n) => ArgView::Variable(n@),
        Argument::Literal(t) => ArgView::Literal(t@),
        Argument::Expression(e) => ArgView::Expression(Box::new(expr_view(*e))),
    }
}

pub open spec fn expr_view(e: Expression) -> ExprView
    decreases e,
{
    match e {
        Expression::Comparison { left, op, right } => ExprView::Comparison {
            left: arg_view(left),
            op,
            right: arg_view(right),
        },
        Expression::Not(a) => ExprView::Not(arg_view(a)),
    }
}

impl View for Argument {
    type V = ArgView;

    open spec fn view(&self) -> ArgView {
        arg_view(*self)
    }
}

impl View for Expression {
    type V = ExprView;

    open spec fn view(&self) -> ExprView {
        expr_view(*self)
    }
}

/// The value bound to a name, if any.
pub open spec fn spec_lookup(ctx: Map<Seq<char>, ValueView>, n: Seq<char>) -> Option<ValueView> {
    if ctx.dom().contains(n) {
        Some(ctx[n])
    } else {
        None
    }
}

/// The text of the value bound to a name, or the name itself when nothing
/// is bound to it.
pub open spec fn spec_lookup_or_text(ctx: Map<Seq<char>, ValueView>, t: Seq<char>) -> Seq<char> {
    match spec_lookup(ctx, t) {
        Some(v) => spec_value_text(v),
        None => t,
    }
}

/// Reading a value as a boolean: a string must spell `true` or `false`,
/// numbers read as non-zero, a boolean is itself.  A float whose text is
/// not a numeral cannot be read.
pub open spec fn spec_value_as_bool(v: ValueView) -> Option<bool> {
    match v {
        ValueView::Text(s) => if s == "true"@ {
            Some(true)
        } else if s == "false"@ {
            Some(false)
        } else {
            None
        },
        ValueView::Int(i) => Some(i != 0),
        ValueView::Float(t) => if spec_is_numeral(t) {
            Some(spec_truthy(ValueView::Float(t)))
        } else {
            None
        },
        ValueView::Bool(b) => Some(b),
    }
}

/// Strict resolution of an argument as text: a variable must be bound, a
/// literal is its text, an expression renders its boolean result.
pub open spec fn spec_resolve_string(
    a: ArgView,
    ctx: Map<Seq<char>, ValueView>,
) -> Result<Seq<char>, ErrView>
    decreases a,
{
    match a {
        ArgView::Variable(n) => match spec_lookup(ctx, n) {
            Some(v) => Ok(spec_value_text(v)),
            None => Err(ErrView::NotFound { name: n, kind_name: "string"@ }),
        },
        ArgView::Literal(t) => Ok(t),
        ArgView::Expression(e) => match spec_eval(*e, ctx) {
            Ok(v) => Ok(spec_value_text(v)),
            Err(e) => Err(e),
        },
    }
}

/// Strict resolution of an argument as a boolean.
pub open spec fn spec_resolve_bool(
    a: ArgView,
    ctx: Map<Seq<char>, ValueView>,
) -> Result<bool, ErrView>
    decreases a,
{
    match a {
        ArgView::Variable(n) => match spec_lookup(ctx, n) {
            Some(v) => match spec_value_as_bool(v) {
                Some(b) => Ok(b),
                None => Err(ErrView::TypeError {
                    name: n,
                    expected: "bool"@,
                    found: spec_kind_name(v),
                }),
            },
            None => Err(ErrView::NotFound { name: n, kind_name: "bool"@ }),
        },
        ArgView::Literal(t) => if t == "true"@ {
            Ok(true)
        } else if t == "false"@ {
            Ok(false)
        } else {
            Err(ErrView::ParseError {
                value: t,
                kind_name: "bool"@,
                message: "provided string was not `true` or `false`"@,
            })
        },
        ArgView::Expression(e) => match spec_eval(*e, ctx) {
            Ok(v) => Ok(spec_truthy(v)),
            Err(e) => Err(e),
        },
    }
}

/// Fallback resolution: the text of the bound value, or the argument's own
/// text when the name is unbound.
pub open spec fn spec_fallback_text(
    a: ArgView,
    ctx: Map<Seq<char>, ValueView>,
) -> Result<Seq<char>, ErrView>
    decreases a,
{
    match a {
        ArgView::Variable(n) => Ok(spec_lookup_or_text(ctx, n)),
        ArgView::Literal(t) => Ok(t),
        ArgView::Expression(e) => match spec_eval(*e, ctx) {
            Ok(v) => Ok(spec_value_text(v)),
            Err(e) => Err(e),
        },
    }
}

/// What a comparison returns on the two resolved texts.  Equality compares
/// the texts; an ordering operator compares numerically when both sides
/// are decimal numerals and lexicographically otherwise.
pub open spec fn spec_compare(op: ComparisonOp, ls: Seq<char>, rs: Seq<char>) -> bool {
    match op {
        ComparisonOp::Equals => ls == rs,
        ComparisonOp::NotEquals => ls != rs,
        ComparisonOp::GreaterThan => spec_order_cmp(ls, rs) > 0,
        ComparisonOp::LessThan => spec_order_cmp(ls, rs) < 0,
        ComparisonOp::GreaterThanEquals => spec_order_cmp(ls, rs) >= 0,
        ComparisonOp::LessThanEquals => spec_order_cmp(ls, rs) <= 0,
    }
}

/// The order an ordering comparison uses: numeric when both texts are
/// numerals, else lexicographic by character.
pub open spec fn spec_order_cmp(ls: Seq<char>, rs: Seq<char>) -> int {
    if spec_is_numeral(ls) && spec_is_numeral(rs) {
        spec_numeral_cmp(ls, rs)
    } else {
        spec_cmp_frac(ls, rs)
    }
}

/// The value of an expression: always a boolean value, or the first error
/// its operands raise.
pub open spec fn spec_eval(
    e: ExprView,
    ctx: Map<Seq<char>, ValueView>,
) -> Result<ValueView, ErrView>
    decreases e,
{
    match e {
        ExprView::Comparison { left, op, right } => match spec_resolve_string(left, ctx) {
            Ok(ls) => match spec_resolve_string(right, ctx) {
                Ok(rs) => Ok(ValueView::Bool(spec_compare(op, ls, rs))),
                Err(er) => Err(er),
            },
            Err(el) => Err(el),
        },
        ExprView::Not(a) => match spec_resolve_bool(a, ctx) {
            Ok(b) => Ok(ValueView::Bool(!b)),
            Err(er) => Err(er),
        },
    }
}

impl Argument {
    /// A variable reference.
    pub fn variable(name: &str) -> (r: Argument)
        ensures
            r@ == ArgView::Variable(name@),
    {
        Argument::Variable(String::from_str(name))
    }

    /// A literal text.
    pub fn literal(s: &str) -> (r: Argument)
        ensures
            r@ == ArgView::Literal(s@),
    {
        Argument::Literal(String::from_str(s))
    }

    /// An expression argument.
    pub fn expression(expr: Expression) -> (r: Argument)
        ensures
            r@ == ArgView::Expression(Box::new(expr@)),
    {
        Argument::Expression(Box::new(expr))
    }

    /// A comparison expression argument.
    pub fn comparison(left: Argument, op: ComparisonOp, right: Argument) -> (r: Argument)
        ensures
            r@ == ArgView::Expression(
                Box::new(ExprView::Comparison { left: left@, op, right: right@ }),
            ),
    {
        Argument::Expression(Box::new(Expression::Comparison { left, op, right }))
    }

    /// A negation expression argument.
    pub fn not(arg: Argument) -> (r: Argument)
        ensures
            r@ == ArgView::Expression(Box::new(ExprView::Not(arg@))),
    {
        Argument::Expression(Box::new(Expression::Not(arg)))
    }

    /// Resolves the argument as text; a variable must be bound.
    pub fn resolve_string(&self, ctx: &Context) -> (r: Result<String, TemplateError>)
        ensures
            match r {
                Ok(s) => spec_resolve_string(self@, ctx@) == Ok::<Seq<char>, ErrView>(s@),
                Err(e) => spec_resolve_string(self@, ctx@) == Err::<Seq<char>, ErrView>(e@),
            },
        decreases *self,
    {
        match self {
            Argument::Variable(n) => match ctx.get(n.as_str()) {
                Some(v) => Ok(v.to_text()),
                None => Err(
                    TemplateError::NotFound {
                        name: n.clone(),
                        kind_name: String::from_str("string"),
                    },
                ),
            },
            Argument::Literal(t) => Ok(t.clone()),
            Argument::Expression(e) => match e.evaluate(ctx) {
                Ok(v) => Ok(v.to_text()),
                Err(er) => Err(er),
            },
        }
    }

    /// Resolves the argument as a boolean; a variable must be bound and its
    /// value readable as a boolean.
    pub fn resolve_bool(&self, ctx: &Context) -> (r: Result<bool, TemplateError>)
        ensures
            match r {
                Ok(b) => spec_resolve_bool(self@, ctx@) == Ok::<bool, ErrView>(b),
                Err(e) => spec_resolve_bool(self@, ctx@) == Err::<bool, ErrView>(e@),
            },
        decreases *self,
    {
        match self {
            Argument::Variable(n) => match ctx.get(n.as_str()) {
                Some(v) => match value_as_bool(v) {
                    Some(b) => Ok(b),
                    None => Err(
                        TemplateError::TypeError {
                            name: n.clone(),
                            expected: String::from_str("bool"),
                            found: v.kind_name(),
                        },
                    ),
                },
                None => Err(
                    TemplateError::NotFound {
                        name: n.clone(),
                        kind_name: String::from_str("bool"),
                    },
                ),
            },
            Argument::Literal(t) => {
                if str_eq(t.as_str(), "true") {
                    Ok(true)
                } else if str_eq(t.as_str(), "false") {
                    Ok(false)
                } else {
                    Err(
                        TemplateError::ParseError {
                            value: t.clone(),
                            kind_name: String::from_str("bool"),
                            message: String::from_str(
                                "provided string was not `true` or `false`",
                            ),
                        },
                    )
                }
            },
            Argument::Expression(e) => match e.evaluate(ctx) {
                Ok(v) => Ok(v.truthy()),
                Err(er) => Err(er),
            },
        }
    }

    /// Resolves the argument with the fallback rule: an unbound variable
    /// stands for its own name.
    pub fn resolve_with_fallback(&self, ctx: &Context) -> (r: Result<String, TemplateError>)
        ensures
            match r {
                Ok(s) => spec_fallback_text(self@, ctx@) == Ok::<Seq<char>, ErrView>(s@),
                Err(e) => spec_fallback_text(self@, ctx@) == Err::<Seq<char>, ErrView>(e@),
            },
        decreases *self,
    {
        match self {
            Argument::Variable(n) => match ctx.get(n.as_str()) {
                Some(v) => Ok(v.to_text()),
                None => Ok(n.clone()),
            },
            Argument::Literal(t) => Ok(t.clone()),
            Argument::Expression(e) => match e.evaluate(ctx) {
                Ok(v) => Ok(v.to_text()),
                Err(er) => Err(er),
            },
        }
    }
}

/// Reads a value as a boolean under the strict rule.
fn value_as_bool(v: &Value) -> (r: Option<bool>)
    ensures
        r == spec_value_as_bool(v@),
{
    match v {
        Value::Text(s) => {
            if str_eq(s.as_str(), "true") {
                Some(true)
            } else if str_eq(s.as_str(), "false") {
                Some(false)
            } else {
                None
            }
        },
        Value::Int(i) => Some(*i != 0),
        Value::Float(t) => {
            let chars = chars_of(t.as_str());
            match crate::numeral::parse_numeral(&chars) {
                Some(_) => Some(v.truthy()),
                None => None,
            }
        },
        Value::Bool(b) => Some(*b),
    }
}

/// Compares two resolved texts in the order the comparison directives use.
fn order_cmp(ls: &String, rs: &String) -> (r: i8)
    ensures
        r == spec_order_cmp(ls@, rs@),
{
    let lc = chars_of(ls.as_str());
    let rc = chars_of(rs.as_str());
    match numeral_cmp(&lc, &rc) {
        Some(c) => c,
        None => cmp_frac(&lc, &rc),
    }
}

impl Expression {
    /// Evaluates the expression against a context; the result is always a
    /// boolean value.
    pub fn evaluate(&self, ctx: &Context) -> (r: Result<Value, TemplateError>)
        ensures
            match r {
                Ok(v) => spec_eval(self@, ctx@) == Ok::<ValueView, ErrView>(v@) && v@ is Bool,
                Err(e) => spec_eval(self@, ctx@) == Err::<ValueView, ErrView>(e@),
            },
        decreases *self,
    {
        match self {
            Expression::Comparison { left, op, right } => {
                let ls = match left.resolve_string(ctx) {
                    Ok(s) => s,
                    Err(e) => {
                        return Err(e);
                    },
                };
                let rs = match right.resolve_string(ctx) {
                    Ok(s) => s,
                    Err(e) => {
                        return Err(e);
                    },
                };
                let b: bool = match op {
                    ComparisonOp::Equals => str_eq(ls.as_str(), rs.as_str()),
                    ComparisonOp::NotEquals => !str_eq(ls.as_str(), rs.as_str()),
                    ComparisonOp::GreaterThan => order_cmp(&ls, &rs) > 0,
                    ComparisonOp::LessThan => order_cmp(&ls, &rs) < 0,
                    ComparisonOp::GreaterThanEquals => order_cmp(&ls, &rs) >= 0,
                    ComparisonOp::LessThanEquals => order_cmp(&ls, &rs) <= 0,
                };
                Ok(Value::Bool(b))
            },
            Expression::Not(a) => {
                let b = match a.resolve_bool(ctx) {
                    Ok(b) => b,
                    Err(e) => {
                        return Err(e);
                    },
                };
                Ok(Value::Bool(!b))
            },
        }
    }
}

} // verus!
