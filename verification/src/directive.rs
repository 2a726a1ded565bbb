//! The executable directives of a compiled template.
//!
//! A compiled template is an ordered sequence of `Directive` values: literal
//! text, the empty directive, variable replacement, pattern repetition,
//! ternary conditionals and multi-case switches.  Rendering a directive
//! against a context yields its output text or the first error met.

use vstd::prelude::*;

use crate::arg::{
    Argument, ArgView, spec_resolve_string, spec_fallback_text, spec_lookup, spec_lookup_or_text,
    spec_eval,
};
use crate::err::{TemplateError, ErrView};
use crate::num::{spec_parse_u64, parse_u64};
use crate::text::chars_of;
use crate::value::{Value, ValueView, Context, spec_value_text, spec_truthy};

verus! {

/// The empty directive, compiled from a directive body with no tokens; it
/// renders as nothing.
#[derive(Debug)]
pub struct NoDirective;

impl NoDirective {
    /// Renders nothing.
    pub fn execute(&self, ctx: &Context) -> (r: Result<String, TemplateError>)
        ensures
            r matches Ok(s) && s@ == Seq::<char>::empty(),
    {
        Ok(String::new())
    }
}

/// Variable replacement: renders the resolved argument.
#[derive(Debug)]
pub struct ReplaceDirective(pub Argument);

/// What replacement renders: strict resolution of the argument as text.
pub open spec fn spec_exec_replace(
    a: ArgView,
    ctx: Map<Seq<char>, ValueView>,
) -> Result<Seq<char>, ErrView> {
    spec_resolve_string(a, ctx)
}

impl ReplaceDirective {
    /// Renders the argument's text; an unbound variable is an error.
    pub fn execute(&self, ctx: &Context) -> (r: Result<String, TemplateError>)
        ensures
            match r {
                Ok(s) => spec_exec_replace(self.0@, ctx@) == Ok::<Seq<char>, ErrView>(s@),
                Err(e) => spec_exec_replace(self.0@, ctx@) == Err::<Seq<char>, ErrView>(e@),
            },
    {
        self.0.resolve_string(ctx)
    }
}

/// Pattern repetition: renders the pattern text a given number of times.
#[derive(Debug)]
pub struct RepeatDirective(pub Argument, pub Argument);

/// The pattern repeated `n` times.
pub open spec fn spec_repeat(p: Seq<char>, n: nat) -> Seq<char>
    decreases n,
{
    if n == 0 {
        Seq::<char>::empty()
    } else {
        spec_repeat(p, (n - 1) as nat) + p
    }
}

/// The repeat count an argument stands for.  A bound variable must hold a
/// non-negative integer; an unbound variable or a literal must spell an
/// unsigned decimal number.
pub open spec fn spec_count_of(
    a: ArgView,
    ctx: Map<Seq<char>, ValueView>,
) -> Result<u64, ErrView> {
    match a {
        ArgView::Variable(n) => match spec_lookup(ctx, n) {
            Some(ValueView::Int(i)) => if 0 <= i <= u64::MAX {
                Ok(i as u64)
            } else {
                Err(ErrView::TypeError {
                    name: n,
                    expected: "non-negative integer"@,
                    found: "i64"@,
                })
            },
            Some(v) => Err(ErrView::TypeError {
                name: n,
                expected: "non-negative integer"@,
                found: crate::value::spec_kind_name(v),
            }),
            None => match spec_parse_u64(n) {
                Some(u) => Ok(u),
                None => Err(ErrView::ParseError {
                    value: n,
                    kind_name: "non-negative integer"@,
                    message: "invalid repeat count"@,
                }),
            },
        },
        ArgView::Literal(t) => match spec_parse_u64(t) {
            Some(u) => Ok(u),
            None => Err(ErrView::ParseError {
                value: t,
                kind_name: "non-negative integer"@,
                message: "invalid repeat count"@,
            }),
        },
        ArgView::Expression(e) => match spec_eval(*e, ctx) {
            Ok(v) => Err(ErrView::TypeError {
                name: "expression"@,
                expected: "non-negative integer"@,
                found: crate::value::spec_kind_name(v),
            }),
            Err(er) => Err(er),
        },
    }
}

/// What repetition renders: the fallback-resolved pattern, repeated.
pub open spec fn spec_exec_repeat(
    pat: ArgView,
    count: ArgView,
    ctx: Map<Seq<char>, ValueView>,
) -> Result<Seq<char>, ErrView> {
    match spec_fallback_text(pat, ctx) {
        Ok(p) => match spec_count_of(count, ctx) {
            Ok(n) => Ok(spec_repeat(p, n as nat)),
            Err(e) => Err(e),
        },
        Err(e) => Err(e),
    }
}

/// The repeat count an argument stands for.
fn count_of(a: &Argument, ctx: &Context) -> (r: Result<u64, TemplateError>)
    ensures
        match r {
            Ok(n) => spec_count_of(a@, ctx@) == Ok::<u64, ErrView>(n),
            Err(e) => spec_count_of(a@, ctx@) == Err::<u64, ErrView>(e@),
        },
{
    match a {
        Argument::Variable(n) => match ctx.get(n.as_str()) {
            Some(v) => match v {
                Value::Int(i) => {
                    if *i >= 0 {
                        Ok(*i as u64)
                    } else {
                        Err(
                            TemplateError::TypeError {
                                name: n.clone(),
                                expected: String::from_str("non-negative integer"),
                                found: String::from_str("i64"),
                            },
                        )
                    }
                },
                _ => Err(
                    TemplateError::TypeError {
                        name: n.clone(),
                        expected: String::from_str("non-negative integer"),
                        found: v.kind_name(),
                    },
                ),
            },
            None => {
                let chars = chars_of(n.as_str());
                match parse_u64(&chars) {
                    Some(u) => Ok(u),
                    None => Err(
                        TemplateError::ParseError {
                            value: n.clone(),
                            kind_name: String::from_str("non-negative integer"),
                            message: String::from_str("invalid repeat count"),
                        },
                    ),
                }
            },
        },
        Argument::Literal(t) => {
            let chars = chars_of(t.as_str());
            match parse_u64(&chars) {
                Some(u) => Ok(u),
                None => Err(
                    TemplateError::ParseError {
                        value: t.clone(),
                        kind_name: String::from_str("non-negative integer"),
                        message: String::from_str("invalid repeat count"),
                    },
                ),
            }
        },
        Argument::Expression(e) => match e.evaluate(ctx) {
            Ok(v) => Err(
                TemplateError::TypeError {
                    name: String::from_str("expression"),
                    expected: String::from_str("non-negative integer"),
                    found: v.kind_name(),
                },
            ),
            Err(er) => Err(er),
        },
    }
}

impl RepeatDirective {
    /// Renders the pattern repeated `count` times; a negative or
    /// non-integer count is an error, never a panic.
    pub fn execute(&self, ctx: &Context) -> (r: Result<String, TemplateError>)
        ensures
            match r {
                Ok(s) => spec_exec_repeat(self.0@, self.1@, ctx@) == Ok::<Seq<char>, ErrView>(s@),
                Err(e) => spec_exec_repeat(self.0@, self.1@, ctx@) == Err::<Seq<char>, ErrView>(
                    e@,
                ),
            },
    {
        let pattern = match self.0.resolve_with_fallback(ctx) {
            Ok(p) => p,
            Err(e) => {
                return Err(e);
            },
        };
        let n = match count_of(&self.1, ctx) {
            Ok(n) => n,
            Err(e) => {
                return Err(e);
            },
        };
        let mut out = String::new();
        let mut i: u64 = 0;
        proof {
            assert(out@ =~= spec_repeat(pattern@, 0));
        }
        while i < n
            invariant
                i <= n,
                out@ == spec_repeat(pattern@, i as nat),
            decreases n - i,
        {
            out.append(pattern.as_str());
            i = i + 1;
        }
        Ok(out)
    }
}

/// A ternary conditional: `condition ? then_value : else_value`.
#[derive(Debug)]
pub struct ConditionalDirective {
    pub condition: Argument,
    pub then_value: Argument,
    pub else_value: Argument,
}

/// The truth of a conditional's condition.  A variable reads its bound
/// value's truthiness and an unbound variable is simply false; a literal
/// reads its own text's truthiness; an expression evaluates.
pub open spec fn spec_cond_truth(
    a: ArgView,
    ctx: Map<Seq<char>, ValueView>,
) -> Result<bool, ErrView> {
    match a {
        ArgView::Variable(n) => match spec_lookup(ctx, n) {
            Some(v) => Ok(spec_truthy(v)),
            None => Ok(false),
        },
        ArgView::Literal(t) => Ok(t.len() > 0),
        ArgView::Expression(e) => match spec_eval(*e, ctx) {
            Ok(v) => Ok(spec_truthy(v)),
            Err(er) => Err(er),
        },
    }
}

/// What a conditional renders: the fallback-resolved branch the condition
/// selects.
pub open spec fn spec_exec_conditional(
    cond: ArgView,
    then_v: ArgView,
    else_v: ArgView,
    ctx: Map<Seq<char>, ValueView>,
) -> Result<Seq<char>, ErrView> {
    match spec_cond_truth(cond, ctx) {
        Ok(b) => spec_fallback_text(
            if b {
                then_v
            } else {
                else_v
            },
            ctx,
        ),
        Err(e) => Err(e),
    }
}

impl ConditionalDirective {
    /// Builds a conditional from its three arguments.
    pub fn new(condition: Argument, then_value: Argument, else_value: Argument) -> (r:
        ConditionalDirective)
        ensures
            r.condition == condition,
            r.then_value == then_value,
            r.else_value == else_value,
    {
        ConditionalDirective { condition, then_value, else_value }
    }

    /// Renders the branch the condition selects; an absent condition
    /// variable selects the false branch without erroring.
    pub fn execute(&self, ctx: &Context) -> (r: Result<String, TemplateError>)
        ensures
            match r {
                Ok(s) => spec_exec_conditional(
                    self.condition@,
                    self.then_value@,
                    self.else_value@,
                    ctx@,
                ) == Ok::<Seq<char>, ErrView>(s@),
                Err(e) => spec_exec_conditional(
                    self.condition@,
                    self.then_value@,
                    self.else_value@,
                    ctx@,
                ) == Err::<Seq<char>, ErrView>(e@),
            },
    {
        let b: bool = match &self.condition {
            Argument::Variable(n) => match ctx.get(n.as_str()) {
                Some(v) => v.truthy(),
                None => false,
            },
            Argument::Literal(t) => t.as_str().unicode_len() > 0,
            Argument::Expression(e) => match e.evaluate(ctx) {
                Ok(v) => v.truthy(),
                Err(er) => {
                    return Err(er);
                },
            },
        };
        if b {
            self.then_value.resolve_with_fallback(ctx)
        } else {
            self.else_value.resolve_with_fallback(ctx)
        }
    }
}

/// A multi-case switch: a selector, ordered `(pattern, result)` cases and
/// an optional default result.
#[derive(Debug)]
pub struct SwitchDirective {
    pub value: Argument,
    pub cases: Vec<(String, String)>,
    pub default: Option<String>,
}

/// The views of the cases.
pub open spec fn case_views(cases: Seq<(String, String)>) -> Seq<(Seq<char>, Seq<char>)> {
    cases.map_values(|c: (String, String)| (c.0@, c.1@))
}

/// What the switch renders once its selector resolved to `v`, examining
/// the cases from index `i` on: the result of the first case whose
/// fallback-resolved pattern equals `v`, else the default, else an error.
pub open spec fn spec_switch_cases(
    cases: Seq<(Seq<char>, Seq<char>)>,
    i: int,
    v: Seq<char>,
    default: Option<Seq<char>>,
    ctx: Map<Seq<char>, ValueView>,
) -> Result<Seq<char>, ErrView>
    decreases cases.len() - i,
{
    if i < 0 || i >= cases.len() {
        match default {
            Some(d) => Ok(spec_lookup_or_text(ctx, d)),
            None => Err(
                ErrView::DirectiveExecution(
                    "No matching case for value '"@ + v + "' in switch directive"@,
                ),
            ),
        }
    } else if spec_lookup_or_text(ctx, cases[i].0) == v {
        Ok(spec_lookup_or_text(ctx, cases[i].1))
    } else {
        spec_switch_cases(cases, i + 1, v, default, ctx)
    }
}

/// What a switch renders.
pub open spec fn spec_exec_switch(
    value: ArgView,
    cases: Seq<(Seq<char>, Seq<char>)>,
    default: Option<Seq<char>>,
    ctx: Map<Seq<char>, ValueView>,
) -> Result<Seq<char>, ErrView> {
    match spec_fallback_text(value, ctx) {
        Ok(v) => spec_switch_cases(cases, 0, v, default, ctx),
        Err(e) => Err(e),
    }
}

/// The view of the optional default result.
pub open spec fn default_view(d: Option<String>) -> Option<Seq<char>> {
    match d {
        Some(s) => Some(s@),
        None => None,
    }
}

impl SwitchDirective {
    /// Builds a switch from its selector, cases and optional default.
    pub fn new(value: Argument, cases: Vec<(String, String)>, default: Option<String>) -> (r:
        SwitchDirective)
        ensures
            r.value == value,
            r.cases == cases,
            r.default == default,
    {
        SwitchDirective { value, cases, default }
    }

    /// Renders the result of the first matching case, or the default; with
    /// no match and no default the switch is an error.
    pub fn execute(&self, ctx: &Context) -> (r: Result<String, TemplateError>)
        ensures
            match r {
                Ok(s) => spec_exec_switch(
                    self.value@,
                    case_views(self.cases@),
                    default_view(self.default),
                    ctx@,
                ) == Ok::<Seq<char>, ErrView>(s@),
                Err(e) => spec_exec_switch(
                    self.value@,
                    case_views(self.cases@),
                    default_view(self.default),
                    ctx@,
                ) == Err::<Seq<char>, ErrView>(e@),
            },
    {
        let v = match self.value.resolve_with_fallback(ctx) {
            Ok(v) => v,
            Err(e) => {
                return Err(e);
            },
        };
        let ghost cviews = case_views(self.cases@);
        let mut i: usize = 0;
        while i < self.cases.len()
            invariant
                i <= self.cases.len(),
                spec_fallback_text(self.value@, ctx@) == Ok::<Seq<char>, ErrView>(v@),
                cviews == case_views(self.cases@),
                cviews.len() == self.cases@.len(),
                forall|j: int| 0 <= j < cviews.len() ==> #[trigger] cviews[j] == (
                    self.cases@[j].0@,
                    self.cases@[j].1@,
                ),
                spec_switch_cases(cviews, 0, v@, default_view(self.default), ctx@)
                    == spec_switch_cases(cviews, i as int, v@, default_view(self.default), ctx@),
            decreases self.cases.len() - i,
        {
            let pattern = lookup_or_text(&self.cases[i].0, ctx);
            if crate::text::str_eq(pattern.as_str(), v.as_str()) {
                let result = lookup_or_text(&self.cases[i].1, ctx);
                proof {
                    assert(cviews[i as int] == (self.cases@[i as int].0@, self.cases@[i as int].1@));
                    assert(spec_switch_cases(cviews, i as int, v@, default_view(self.default), ctx@)
                        == Ok::<Seq<char>, ErrView>(spec_lookup_or_text(ctx@, cviews[i as int].1)));
                }
                return Ok(result);
            }
            i = i + 1;
        }
        match &self.default {
            Some(d) => Ok(lookup_or_text(d, ctx)),
            None => {
                let mut m = String::from_str("No matching case for value '");
                m.append(v.as_str());
                m.append("' in switch directive");
                proof {
                    assert(m@ =~= "No matching case for value '"@ + v@
                        + "' in switch directive"@);
                }
                Err(TemplateError::DirectiveExecution(m))
            },
        }
    }
}

/// The text bound to a name in the context, or the name itself.
fn lookup_or_text(t: &String, ctx: &Context) -> (r: String)
    ensures
        r@ == spec_lookup_or_text(ctx@, t@),
{
    match ctx.get(t.as_str()) {
        Some(v) => v.to_text(),
        None => t.clone(),
    }
}

/// One compiled, executable unit of a template.
#[derive(Debug)]
pub enum Directive {
    /// Literal text, copied to the output as it stands.
    Literal(String),
    /// The empty directive.
    Empty(NoDirective),
    /// Variable replacement.
    Replace(ReplaceDirective),
    /// Pattern repetition.
    Repeat(RepeatDirective),
    /// A ternary conditional.
    Conditional(ConditionalDirective),
    /// A multi-case switch.
    Switch(SwitchDirective),
}

/// The mathematical shape of a `Directive`.
pub enum DirView {
    Literal(Seq<char>),
    Empty,
    Replace(ArgView),
    Repeat(ArgView, ArgView),
    Conditional { cond: ArgView, then_v: ArgView, else_v: ArgView },
    Switch { value: ArgView, cases: Seq<(Seq<char>, Seq<char>)>, default: Option<Seq<char>> },
}

impl View for Directive {
    type V = DirView;

    open spec fn view(&self) -> DirView {
        match self {
            Directive::Literal(t) => DirView::Literal(t@),
            Directive::Empty(_) => DirView::Empty,
            Directive::Replace(d) => DirView::Replace(d.0@),
            Directive::Repeat(d) => DirView::Repeat(d.0@, d.1@),
            Directive::Conditional(d) => DirView::Conditional {
                cond: d.condition@,
                then_v: d.then_value@,
                else_v: d.else_value@,
            },
            Directive::Switch(d) => DirView::Switch {
                value: d.value@,
                cases: case_views(d.cases@),
                default: default_view(d.default),
            },
        }
    }
}

/// What one directive renders against a context.
pub open spec fn spec_exec_directive(
    d: DirView,
    ctx: Map<Seq<char>, ValueView>,
) -> Result<Seq<char>, ErrView> {
    match d {
        DirView::Literal(t) => Ok(t),
        DirView::Empty => Ok(Seq::<char>::empty()),
        DirView::Replace(a) => spec_exec_replace(a, ctx),
        DirView::Repeat(p, c) => spec_exec_repeat(p, c, ctx),
        DirView::Conditional { cond, then_v, else_v } => spec_exec_conditional(
            cond,
            then_v,
            else_v,
            ctx,
        ),
        DirView::Switch { value, cases, default } => spec_exec_switch(value, cases, default, ctx),
    }
}

impl Directive {
    /// Renders the directive against a context.
    pub fn execute(&self, ctx: &Context) -> (r: Result<String, TemplateError>)
        ensures
            match r {
                Ok(s) => spec_exec_directive(self@, ctx@) == Ok::<Seq<char>, ErrView>(s@),
                Err(e) => spec_exec_directive(self@, ctx@) == Err::<Seq<char>, ErrView>(e@),
            },
    {
        match self {
            Directive::Literal(t) => Ok(t.clone()),
            Directive::Empty(d) => d.execute(ctx),
            Directive::Replace(d) => d.execute(ctx),
            Directive::Repeat(d) => d.execute(ctx),
            Directive::Conditional(d) => d.execute(ctx),
            Directive::Switch(d) => d.execute(ctx),
        }
    }
}

} // verus!
