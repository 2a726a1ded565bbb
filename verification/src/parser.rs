//! The directive parser.
//!
//! A directive body's token sequence is matched against a fixed set of
//! shapes, first match wins: the empty body, a single identifier or
//! literal, `pattern : count`, a bare ternary conditional, a ternary whose
//! condition is a comparison, a negated ternary, and a pipe-delimited
//! switch.  Anything else is rejected at compile time.

use vstd::prelude::*;

use crate::arg::{Argument, ArgView, ComparisonOp, Expression, ExprView};
use crate::directive::{
    ConditionalDirective, Directive, DirView, NoDirective, RepeatDirective, ReplaceDirective,
    SwitchDirective, case_views, default_view,
};
use crate::err::{TemplateError, ErrView};
use crate::lexer::{Token, TokenView, token_views, spec_token_text};

verus! {

/// The argument a value token stands for: an identifier becomes a variable
/// reference, a literal or number becomes a literal argument holding its
/// raw text.
pub open spec fn spec_to_arg(t: TokenView) -> ArgView {
    match t {
        TokenView::Ident(n) => ArgView::Variable(n),
        _ => ArgView::Literal(spec_token_text(t)),
    }
}

/// Whether the token is a comparison operator.
pub open spec fn spec_is_cmp(t: TokenView) -> bool {
    t is Equal || t is NotEqual || t is GreaterThan || t is LessThan || t is GreaterThanOrEqual
        || t is LessThanOrEqual
}

/// The comparison operator a token stands for.
pub open spec fn spec_cmp_op(t: TokenView) -> ComparisonOp {
    match t {
        TokenView::Equal => ComparisonOp::Equals,
        TokenView::NotEqual => ComparisonOp::NotEquals,
        TokenView::GreaterThan => ComparisonOp::GreaterThan,
        TokenView::LessThan => ComparisonOp::LessThan,
        TokenView::GreaterThanOrEqual => ComparisonOp::GreaterThanEquals,
        _ => ComparisonOp::LessThanEquals,
    }
}

/// Whether a pipe token occurs anywhere in the sequence.
pub open spec fn spec_has_pipe(ts: Seq<TokenView>) -> bool {
    exists|i: int| 0 <= i < ts.len() && ts[i] is Pipe
}

/// The cases and the default of a switch body, read from index `i` on:
/// groups of `| pattern => result`, with `_` in pattern position naming
/// the default.  A later default replaces an earlier one.
pub open spec fn spec_parse_switch_items(
    ts: Seq<TokenView>,
    i: int,
    cases: Seq<(Seq<char>, Seq<char>)>,
    default: Option<Seq<char>>,
) -> Result<(Seq<(Seq<char>, Seq<char>)>, Option<Seq<char>>), ErrView>
    decreases ts.len() - i,
{
    if i < 0 || i >= ts.len() {
        Ok((cases, default))
    } else if !(ts[i] is Pipe) {
        Err(ErrView::DirectiveParsing("Expected '|' in switch directive"@))
    } else if i + 1 >= ts.len() {
        Err(ErrView::DirectiveParsing("Expected case pattern or '_' after '|'"@))
    } else if ts[i + 1] is Underscore {
        if i + 2 >= ts.len() || !(ts[i + 2] is Arrow) {
            Err(ErrView::DirectiveParsing("Expected '=>' after '_' in switch"@))
        } else if i + 3 >= ts.len() || !Token::spec_is_value(ts[i + 3]) {
            Err(ErrView::DirectiveParsing("Expected value after '=>' in default case"@))
        } else {
            spec_parse_switch_items(ts, i + 4, cases, Some(spec_token_text(ts[i + 3])))
        }
    } else if Token::spec_is_value(ts[i + 1]) {
        if i + 2 >= ts.len() || !(ts[i + 2] is Arrow) {
            Err(ErrView::DirectiveParsing("Expected '=>' after case pattern"@))
        } else if i + 3 >= ts.len() || !Token::spec_is_value(ts[i + 3]) {
            Err(ErrView::DirectiveParsing("Expected value after '=>'"@))
        } else {
            spec_parse_switch_items(
                ts,
                i + 4,
                cases.push((spec_token_text(ts[i + 1]), spec_token_text(ts[i + 3]))),
                default,
            )
        }
    } else {
        Err(ErrView::DirectiveParsing("Expected case pattern or '_' after '|'"@))
    }
}

/// A whole switch body: a value token, then its cases.
pub open spec fn spec_parse_switch(ts: Seq<TokenView>) -> Result<DirView, ErrView> {
    if ts.len() == 0 || !Token::spec_is_value(ts[0]) {
        Err(ErrView::DirectiveParsing("Switch directive must start with a value"@))
    } else {
        match spec_parse_switch_items(ts, 1, Seq::empty(), None) {
            Ok(cd) => Ok(
                DirView::Switch { value: spec_to_arg(ts[0]), cases: cd.0, default: cd.1 },
            ),
            Err(e) => Err(e),
        }
    }
}

/// The directive a token sequence compiles to, or a parsing error when it
/// matches no recognized shape.
pub open spec fn spec_parse(ts: Seq<TokenView>) -> Result<DirView, ErrView> {
    if ts.len() == 0 {
        Ok(DirView::Empty)
    } else if ts.len() == 1 && ts[0] is Ident {
        Ok(DirView::Replace(ArgView::Variable(ts[0]->Ident_0)))
    } else if ts.len() == 1 && ts[0] is Literal {
        Ok(DirView::Replace(ArgView::Literal(ts[0]->Literal_0)))
    } else if ts.len() == 3 && ts[1] is Colon && Token::spec_is_value(ts[0])
        && Token::spec_is_value(ts[2]) {
        Ok(DirView::Repeat(spec_to_arg(ts[0]), spec_to_arg(ts[2])))
    } else if ts.len() == 5 && ts[1] is Question && ts[3] is Colon && Token::spec_is_value(ts[0])
        && Token::spec_is_value(ts[2]) && Token::spec_is_value(ts[4]) {
        Ok(
            DirView::Conditional {
                cond: spec_to_arg(ts[0]),
                then_v: spec_to_arg(ts[2]),
                else_v: spec_to_arg(ts[4]),
            },
        )
    } else if ts.len() == 7 && spec_is_cmp(ts[1]) && ts[3] is Question && ts[5] is Colon
        && Token::spec_is_value(ts[0]) && Token::spec_is_value(ts[2]) && Token::spec_is_value(
        ts[4],
    ) && Token::spec_is_value(ts[6]) {
        Ok(
            DirView::Conditional {
                cond: ArgView::Expression(
                    Box::new(
                        ExprView::Comparison {
                            left: spec_to_arg(ts[0]),
                            op: spec_cmp_op(ts[1]),
                            right: spec_to_arg(ts[2]),
                        },
                    ),
                ),
                then_v: spec_to_arg(ts[4]),
                else_v: spec_to_arg(ts[6]),
            },
        )
    } else if ts.len() == 6 && ts[0] is Not && ts[2] is Question && ts[4] is Colon
        && Token::spec_is_value(ts[1]) && Token::spec_is_value(ts[3]) && Token::spec_is_value(
        ts[5],
    ) {
        Ok(
            DirView::Conditional {
                cond: ArgView::Expression(Box::new(ExprView::Not(spec_to_arg(ts[1])))),
                then_v: spec_to_arg(ts[3]),
                else_v: spec_to_arg(ts[5]),
            },
        )
    } else if ts.len() >= 4 && spec_has_pipe(ts) {
        spec_parse_switch(ts)
    } else {
        Err(ErrView::DirectiveParsing("Unhandled token pattern"@))
    }
}

/// The parser for the built-in directive shapes.
pub struct DefaultParser;

fn is_value_token(t: &Token) -> (r: bool)
    ensures
        r == Token::spec_is_value(t@),
{
    match t {
        Token::Ident(_) => true,
        Token::Literal(_) => true,
        Token::Int(_) => true,
        Token::Float(_) => true,
        _ => false,
    }
}

fn to_arg(t: &Token) -> (r: Argument)
    ensures
        r@ == spec_to_arg(t@),
{
    match t {
        Token::Ident(n) => Argument::Variable(n.clone()),
        _ => Argument::Literal(t.as_string()),
    }
}

fn has_pipe(input: &Vec<Token>) -> (r: bool)
    ensures
        r == spec_has_pipe(token_views(input@)),
{
    let ghost ts = token_views(input@);
    let mut i: usize = 0;
    while i < input.len()
        invariant
            i <= input.len(),
            ts == token_views(input@),
            ts.len() == input@.len(),
            forall|j: int| 0 <= j < input@.len() ==> ts[j] == input@[j]@,
            forall|j: int| 0 <= j < i ==> !(#[trigger] ts[j] is Pipe),
        decreases input.len() - i,
    {
        if matches!(input[i], Token::Pipe) {
            proof {
                assert(ts[i as int] is Pipe);
            }
            return true;
        }
        i = i + 1;
    }
    false
}

impl DefaultParser {
    /// Parses a switch body: a value token, then `| pattern => result`
    /// groups, `_` in pattern position naming the default.
    fn parse_switch(input: &Vec<Token>) -> (r: Result<Directive, TemplateError>)
        ensures
            match r {
                Ok(d) => spec_parse_switch(token_views(input@)) == Ok::<DirView, ErrView>(d@),
                Err(e) => spec_parse_switch(token_views(input@)) == Err::<DirView, ErrView>(e@),
            },
    {
        let ghost ts = token_views(input@);
        proof {
            assert(forall|j: int| 0 <= j < input@.len() ==> ts[j] == input@[j]@);
        }
        if input.len() == 0 || !is_value_token(&input[0]) {
            return Err(
                TemplateError::DirectiveParsing(
                    String::from_str("Switch directive must start with a value"),
                ),
            );
        }
        let value = to_arg(&input[0]);
        let mut cases: Vec<(String, String)> = Vec::new();
        let mut default: Option<String> = None;
        let mut i: usize = 1;
        proof {
            assert(case_views(cases@) =~= Seq::<(Seq<char>, Seq<char>)>::empty());
        }
        while i < input.len()
            invariant
                1 <= i,
                0 < input@.len(),
                Token::spec_is_value(ts[0]),
                ts == token_views(input@),
                ts.len() == input@.len(),
                forall|j: int| 0 <= j < input@.len() ==> ts[j] == input@[j]@,
                spec_parse_switch_items(ts, 1, Seq::empty(), None) == spec_parse_switch_items(
                    ts,
                    i as int,
                    case_views(cases@),
                    default_view(default),
                ),
            decreases input.len() - i,
        {
            if !matches!(input[i], Token::Pipe) {
                return Err(
                    TemplateError::DirectiveParsing(
                        String::from_str("Expected '|' in switch directive"),
                    ),
                );
            }
            if i + 1 >= input.len() {
                return Err(
                    TemplateError::DirectiveParsing(
                        String::from_str("Expected case pattern or '_' after '|'"),
                    ),
                );
            }
            if matches!(input[i + 1], Token::Underscore) {
                if i + 2 >= input.len() || !matches!(input[i + 2], Token::Arrow) {
                    return Err(
                        TemplateError::DirectiveParsing(
                            String::from_str("Expected '=>' after '_' in switch"),
                        ),
                    );
                }
                if i + 3 >= input.len() || !is_value_token(&input[i + 3]) {
                    return Err(
                        TemplateError::DirectiveParsing(
                            String::from_str("Expected value after '=>' in default case"),
                        ),
                    );
                }
                default = Some(input[i + 3].as_string());
                i = i + 4;
            } else if is_value_token(&input[i + 1]) {
                if i + 2 >= input.len() || !matches!(input[i + 2], Token::Arrow) {
                    return Err(
                        TemplateError::DirectiveParsing(
                            String::from_str("Expected '=>' after case pattern"),
                        ),
                    );
                }
                if i + 3 >= input.len() || !is_value_token(&input[i + 3]) {
                    return Err(
                        TemplateError::DirectiveParsing(
                            String::from_str("Expected value after '=>'"),
                        ),
                    );
                }
                let ghost before = cases@;
                let pattern = input[i + 1].as_string();
                let result = input[i + 3].as_string();
                cases.push((pattern, result));
                proof {
                    assert(case_views(cases@) =~= case_views(before).push(
                        (
                            spec_token_text(ts[i + 1]),
                            spec_token_text(ts[i + 3]),
                        ),
                    ));
                }
                i = i + 4;
            } else {
                return Err(
                    TemplateError::DirectiveParsing(
                        String::from_str("Expected case pattern or '_' after '|'"),
                    ),
                );
            }
        }
        Ok(Directive::Switch(SwitchDirective { value, cases, default }))
    }

    /// Parses one directive body's tokens into an executable directive;
    /// a token sequence matching no recognized shape is rejected.
    pub fn parse(input: &Vec<Token>) -> (r: Result<Directive, TemplateError>)
        ensures
            match r {
                Ok(d) => spec_parse(token_views(input@)) == Ok::<DirView, ErrView>(d@),
                Err(e) => spec_parse(token_views(input@)) == Err::<DirView, ErrView>(e@),
            },
    {
        let ghost ts = token_views(input@);
        proof {
            assert(forall|j: int| 0 <= j < input@.len() ==> ts[j] == input@[j]@);
        }
        let n = input.len();
        if n == 0 {
            return Ok(Directive::Empty(NoDirective));
        }
        if n == 1 {
            match &input[0] {
                Token::Ident(name) => {
                    return Ok(
                        Directive::Replace(ReplaceDirective(Argument::Variable(name.clone()))),
                    );
                },
                Token::Literal(text) => {
                    return Ok(
                        Directive::Replace(ReplaceDirective(Argument::Literal(text.clone()))),
                    );
                },
                _ => {},
            }
        }
        if n == 3 && matches!(input[1], Token::Colon) && is_value_token(&input[0])
            && is_value_token(&input[2]) {
            return Ok(
                Directive::Repeat(RepeatDirective(to_arg(&input[0]), to_arg(&input[2]))),
            );
        }
        if n == 5 && matches!(input[1], Token::Question) && matches!(input[3], Token::Colon)
            && is_value_token(&input[0]) && is_value_token(&input[2]) && is_value_token(
            &input[4],
        ) {
            return Ok(
                Directive::Conditional(
                    ConditionalDirective::new(
                        to_arg(&input[0]),
                        to_arg(&input[2]),
                        to_arg(&input[4]),
                    ),
                ),
            );
        }
        if n == 7 && matches!(input[3], Token::Question) && matches!(input[5], Token::Colon)
            && is_value_token(&input[0]) && is_value_token(&input[2]) && is_value_token(&input[4])
            && is_value_token(&input[6]) {
            let op: Option<ComparisonOp> = match &input[1] {
                Token::Equal => Some(ComparisonOp::Equals),
                Token::NotEqual => Some(ComparisonOp::NotEquals),
                Token::GreaterThan => Some(ComparisonOp::GreaterThan),
                Token::LessThan => Some(ComparisonOp::LessThan),
                Token::GreaterThanOrEqual => Some(ComparisonOp::GreaterThanEquals),
                Token::LessThanOrEqual => Some(ComparisonOp::LessThanEquals),
                _ => None,
            };
            match op {
                Some(op) => {
                    let cond = Argument::comparison(to_arg(&input[0]), op, to_arg(&input[2]));
                    return Ok(
                        Directive::Conditional(
                            ConditionalDirective::new(cond, to_arg(&input[4]), to_arg(&input[6])),
                        ),
                    );
                },
                None => {},
            }
        }
        if n == 6 && matches!(input[0], Token::Not) && matches!(input[2], Token::Question)
            && matches!(input[4], Token::Colon) && is_value_token(&input[1]) && is_value_token(
            &input[3],
        ) && is_value_token(&input[5]) {
            let cond = Argument::not(to_arg(&input[1]));
            return Ok(
                Directive::Conditional(
                    ConditionalDirective::new(cond, to_arg(&input[3]), to_arg(&input[5])),
                ),
            );
        }
        if n >= 4 && has_pipe(input) {
            return Self::parse_switch(input);
        }
        Err(TemplateError::DirectiveParsing(String::from_str("Unhandled token pattern")))
    }
}

} // verus!
