//! Compiled templates.
//!
//! `compile` scans the source once: literal text is collected between
//! directives, a directive body is cut out between the configured delimiter
//! characters, tokenized, parsed and stored.  A backslash escapes the next
//! character outside and inside a directive body; a doubled delimiter
//! outside a directive stands for one literal delimiter character.  Before
//! the scan, a balance pass checks that every delimiter is matched, so a
//! malformed template fails atomically.  A compiled template holds no
//! reference to any context and may be rendered any number of times.

use vstd::prelude::*;

use crate::directive::{Directive, DirView, spec_exec_directive};
use crate::err::{TemplateError, ErrView};
use crate::lexer::{Lexer, token_views, spec_tokenize};
use crate::parser::{DefaultParser, spec_parse};
use crate::text::{chars_of, string_from_chars};
use crate::value::{Context, ValueView};

verus! {

/// The views of a directive run.
pub open spec fn dir_views(ds: Seq<Directive>) -> Seq<DirView> {
    ds.map_values(|d: Directive| d@)
}

/// The delimiter balance of a source under distinct open and close
/// delimiters, scanning from `i` at nesting depth `depth`: the final
/// depth, or -1 as soon as a close appears at depth zero.  A backslash
/// escapes the next character; a doubled delimiter at depth zero is an
/// escaped literal.
pub open spec fn spec_balance_distinct(s: Seq<char>, i: int, depth: int, o: char, c: char) -> int
    decreases s.len() - i,
{
    if i < 0 || i >= s.len() {
        depth
    } else if s[i] == '\\' {
        if i + 1 < s.len() {
            spec_balance_distinct(s, i + 2, depth, o, c)
        } else {
            spec_balance_distinct(s, i + 1, depth, o, c)
        }
    } else if depth == 0 && s[i] == o && i + 1 < s.len() && s[i + 1] == o {
        spec_balance_distinct(s, i + 2, depth, o, c)
    } else if depth == 0 && s[i] == c && i + 1 < s.len() && s[i + 1] == c {
        spec_balance_distinct(s, i + 2, depth, o, c)
    } else if s[i] == o {
        spec_balance_distinct(s, i + 1, depth + 1, o, c)
    } else if s[i] == c {
        if depth == 0 {
            -1
        } else {
            spec_balance_distinct(s, i + 1, depth - 1, o, c)
        }
    } else {
        spec_balance_distinct(s, i + 1, depth, o, c)
    }
}

/// The delimiter balance under one delimiter character for both ends,
/// scanning from `i`: 1 when the source ends inside a directive, else 0.
/// A doubled delimiter is an escaped literal and does not toggle.
pub open spec fn spec_balance_same(s: Seq<char>, i: int, inside: bool, d: char) -> int
    decreases s.len() - i,
{
    if i < 0 || i >= s.len() {
        if inside {
            1
        } else {
            0
        }
    } else if s[i] == '\\' {
        if i + 1 < s.len() {
            spec_balance_same(s, i + 2, inside, d)
        } else {
            spec_balance_same(s, i + 1, inside, d)
        }
    } else if s[i] == d && i + 1 < s.len() && s[i + 1] == d {
        spec_balance_same(s, i + 2, inside, d)
    } else if s[i] == d {
        spec_balance_same(s, i + 1, !inside, d)
    } else {
        spec_balance_same(s, i + 1, inside, d)
    }
}

/// The nesting balance of a whole source: zero exactly when every
/// delimiter is matched.
pub open spec fn spec_balance(s: Seq<char>, o: char, c: char) -> int {
    if o == c {
        spec_balance_same(s, 0, false, o)
    } else {
        spec_balance_distinct(s, 0, 0, o, c)
    }
}

/// One directive body compiled: its text tokenized and parsed.
pub open spec fn spec_compile_body(body: Seq<char>) -> Result<DirView, ErrView> {
    spec_parse(spec_tokenize(body))
}

/// The scan under distinct delimiters from index `i`, with the pending
/// literal text, the pending directive body, the nesting depth and the
/// directives already compiled.
pub open spec fn spec_scan_distinct(
    s: Seq<char>,
    i: int,
    text: Seq<char>,
    body: Seq<char>,
    depth: int,
    acc: Seq<DirView>,
    o: char,
    c: char,
) -> Result<Seq<DirView>, ErrView>
    decreases s.len() - i,
{
    if i < 0 || i >= s.len() {
        if depth != 0 {
            Err(ErrView::MissingDelimiter(c))
        } else if text.len() > 0 {
            Ok(acc.push(DirView::Literal(text)))
        } else {
            Ok(acc)
        }
    } else if s[i] == '\\' {
        if i + 1 < s.len() {
            if depth == 0 {
                spec_scan_distinct(s, i + 2, text.push(s[i + 1]), body, depth, acc, o, c)
            } else {
                spec_scan_distinct(s, i + 2, text, body.push(s[i + 1]), depth, acc, o, c)
            }
        } else {
            spec_scan_distinct(s, i + 1, text, body, depth, acc, o, c)
        }
    } else if depth == 0 && s[i] == o && i + 1 < s.len() && s[i + 1] == o {
        spec_scan_distinct(s, i + 2, text.push(o), body, depth, acc, o, c)
    } else if depth == 0 && s[i] == c && i + 1 < s.len() && s[i + 1] == c {
        spec_scan_distinct(s, i + 2, text.push(c), body, depth, acc, o, c)
    } else if s[i] == o {
        if depth == 0 {
            let flushed = if text.len() > 0 {
                acc.push(DirView::Literal(text))
            } else {
                acc
            };
            spec_scan_distinct(s, i + 1, Seq::empty(), body, 1, flushed, o, c)
        } else {
            spec_scan_distinct(s, i + 1, text, body.push(o), depth + 1, acc, o, c)
        }
    } else if s[i] == c {
        if depth == 0 {
            Err(ErrView::MissingDelimiter(o))
        } else if depth == 1 {
            match spec_compile_body(body) {
                Ok(d) => spec_scan_distinct(s, i + 1, text, Seq::empty(), 0, acc.push(d), o, c),
                Err(e) => Err(e),
            }
        } else {
            spec_scan_distinct(s, i + 1, text, body.push(c), depth - 1, acc, o, c)
        }
    } else {
        if depth == 0 {
            spec_scan_distinct(s, i + 1, text.push(s[i]), body, depth, acc, o, c)
        } else {
            spec_scan_distinct(s, i + 1, text, body.push(s[i]), depth, acc, o, c)
        }
    }
}

/// The scan under one delimiter character for both ends.
pub open spec fn spec_scan_same(
    s: Seq<char>,
    i: int,
    text: Seq<char>,
    body: Seq<char>,
    inside: bool,
    acc: Seq<DirView>,
    d: char,
) -> Result<Seq<DirView>, ErrView>
    decreases s.len() - i,
{
    if i < 0 || i >= s.len() {
        if inside {
            Err(ErrView::MissingDelimiter(d))
        } else if text.len() > 0 {
            Ok(acc.push(DirView::Literal(text)))
        } else {
            Ok(acc)
        }
    } else if s[i] == '\\' {
        if i + 1 < s.len() {
            if inside {
                spec_scan_same(s, i + 2, text, body.push(s[i + 1]), inside, acc, d)
            } else {
                spec_scan_same(s, i + 2, text.push(s[i + 1]), body, inside, acc, d)
            }
        } else {
            spec_scan_same(s, i + 1, text, body, inside, acc, d)
        }
    } else if s[i] == d && i + 1 < s.len() && s[i + 1] == d {
        if inside {
            spec_scan_same(s, i + 2, text, body.push(d), inside, acc, d)
        } else {
            spec_scan_same(s, i + 2, text.push(d), body, inside, acc, d)
        }
    } else if s[i] == d {
        if inside {
            match spec_compile_body(body) {
                Ok(dir) => spec_scan_same(s, i + 1, text, Seq::empty(), false, acc.push(dir), d),
                Err(e) => Err(e),
            }
        } else {
            let flushed = if text.len() > 0 {
                acc.push(DirView::Literal(text))
            } else {
                acc
            };
            spec_scan_same(s, i + 1, Seq::empty(), body, true, flushed, d)
        }
    } else {
        if inside {
            spec_scan_same(s, i + 1, text, body.push(s[i]), inside, acc, d)
        } else {
            spec_scan_same(s, i + 1, text.push(s[i]), body, inside, acc, d)
        }
    }
}

/// What a whole source compiles to: the balance pass first, then the scan.
pub open spec fn spec_compile(o: char, c: char, s: Seq<char>) -> Result<Seq<DirView>, ErrView> {
    let bal = spec_balance(s, o, c);
    if bal > 0 {
        Err(ErrView::MissingDelimiter(c))
    } else if bal < 0 {
        Err(ErrView::MissingDelimiter(o))
    } else if o == c {
        spec_scan_same(s, 0, Seq::empty(), Seq::empty(), false, Seq::empty(), o)
    } else {
        spec_scan_distinct(s, 0, Seq::empty(), Seq::empty(), 0, Seq::empty(), o, c)
    }
}

/// What the directives from index `i` on render, appended to `acc`;
/// rendering stops at the first error and returns it.
pub open spec fn spec_render_parts(
    parts: Seq<DirView>,
    i: int,
    acc: Seq<char>,
    ctx: Map<Seq<char>, ValueView>,
) -> Result<Seq<char>, ErrView>
    decreases parts.len() - i,
{
    if i < 0 || i >= parts.len() {
        Ok(acc)
    } else {
        match spec_exec_directive(parts[i], ctx) {
            Ok(t) => spec_render_parts(parts, i + 1, acc + t, ctx),
            Err(e) => Err(e),
        }
    }
}

/// What a compiled template renders against a context.
pub open spec fn spec_render(
    parts: Seq<DirView>,
    ctx: Map<Seq<char>, ValueView>,
) -> Result<Seq<char>, ErrView> {
    spec_render_parts(parts, 0, Seq::empty(), ctx)
}

/// The mathematical shape of a `Template`.
pub struct TemplateView {
    pub open_delim: char,
    pub close_delim: char,
    pub parts: Seq<DirView>,
}

/// A compiled template: its two delimiter characters and its ordered
/// directive sequence.
#[derive(Debug)]
pub struct Template {
    pub open_delim: char,
    pub close_delim: char,
    pub parts: Vec<Directive>,
}

impl View for Template {
    type V = TemplateView;

    open spec fn view(&self) -> TemplateView {
        TemplateView {
            open_delim: self.open_delim,
            close_delim: self.close_delim,
            parts: dir_views(self.parts@),
        }
    }
}

fn scan_distinct(v: &Vec<char>, o: char, c: char) -> (r: Result<Vec<Directive>, TemplateError>)
    ensures
        match r {
            Ok(parts) => spec_scan_distinct(
                v@,
                0,
                Seq::empty(),
                Seq::empty(),
                0,
                Seq::empty(),
                o,
                c,
            ) == Ok::<Seq<DirView>, ErrView>(dir_views(parts@)),
            Err(e) => spec_scan_distinct(v@, 0, Seq::empty(), Seq::empty(), 0, Seq::empty(), o, c)
                == Err::<Seq<DirView>, ErrView>(e@),
        },
{
    let ghost s = v@;
    let mut parts: Vec<Directive> = Vec::new();
    let mut text: Vec<char> = Vec::new();
    let mut body: Vec<char> = Vec::new();
    let mut depth: usize = 0;
    let mut i: usize = 0;
    proof {
        assert(text@ =~= Seq::<char>::empty());
        assert(body@ =~= Seq::<char>::empty());
        assert(dir_views(parts@) =~= Seq::<DirView>::empty());
    }
    while i < v.len()
        invariant
            i <= v.len(),
            depth <= i,
            s == v@,
            spec_scan_distinct(s, 0, Seq::empty(), Seq::empty(), 0, Seq::empty(), o, c)
                == spec_scan_distinct(
                s,
                i as int,
                text@,
                body@,
                depth as int,
                dir_views(parts@),
                o,
                c,
            ),
        decreases v.len() - i,
    {
        let ch = v[i];
        if ch == '\\' {
            if i + 1 < v.len() {
                if depth == 0 {
                    text.push(v[i + 1]);
                } else {
                    body.push(v[i + 1]);
                }
                i = i + 2;
            } else {
                i = i + 1;
            }
        } else if depth == 0 && ch == o && i + 1 < v.len() && v[i + 1] == o {
            text.push(o);
            i = i + 2;
        } else if depth == 0 && ch == c && i + 1 < v.len() && v[i + 1] == c {
            text.push(c);
            i = i + 2;
        } else if ch == o {
            if depth == 0 {
                if text.len() > 0 {
                    let flushed = string_from_chars(&text);
                    parts.push(Directive::Literal(flushed));
                    text = Vec::new();
                }
                proof {
                    assert(text@ =~= Seq::<char>::empty());
                }
                depth = 1;
            } else {
                body.push(o);
                depth = depth + 1;
            }
            i = i + 1;
        } else if ch == c {
            if depth == 0 {
                return Err(TemplateError::MissingDelimiter(o));
            } else if depth == 1 {
                let body_str = string_from_chars(&body);
                let tokens = Lexer::tokenize(body_str.as_str());
                match DefaultParser::parse(&tokens) {
                    Ok(d) => {
                        parts.push(d);
                        body = Vec::new();
                        depth = 0;
                        proof {
                            assert(body@ =~= Seq::<char>::empty());
                        }
                    },
                    Err(e) => {
                        return Err(e);
                    },
                }
                i = i + 1;
            } else {
                body.push(c);
                depth = depth - 1;
                i = i + 1;
            }
        } else {
            if depth == 0 {
                text.push(ch);
            } else {
                body.push(ch);
            }
            i = i + 1;
        }
        proof {
            lemma_dir_views_push_auto();
        }
    }
    if depth != 0 {
        return Err(TemplateError::MissingDelimiter(c));
    }
    if text.len() > 0 {
        let flushed = string_from_chars(&text);
        parts.push(Directive::Literal(flushed));
        proof {
            lemma_dir_views_push_auto();
        }
    }
    Ok(parts)
}

fn scan_same(v: &Vec<char>, d: char) -> (r: Result<Vec<Directive>, TemplateError>)
    ensures
        match r {
            Ok(parts) => spec_scan_same(v@, 0, Seq::empty(), Seq::empty(), false, Seq::empty(), d)
                == Ok::<Seq<DirView>, ErrView>(dir_views(parts@)),
            Err(e) => spec_scan_same(v@, 0, Seq::empty(), Seq::empty(), false, Seq::empty(), d)
                == Err::<Seq<DirView>, ErrView>(e@),
        },
{
    let ghost s = v@;
    let mut parts: Vec<Directive> = Vec::new();
    let mut text: Vec<char> = Vec::new();
    let mut body: Vec<char> = Vec::new();
    let mut inside: bool = false;
    let mut i: usize = 0;
    proof {
        assert(text@ =~= Seq::<char>::empty());
        assert(body@ =~= Seq::<char>::empty());
        assert(dir_views(parts@) =~= Seq::<DirView>::empty());
    }
    while i < v.len()
        invariant
            i <= v.len(),
            s == v@,
            spec_scan_same(s, 0, Seq::empty(), Seq::empty(), false, Seq::empty(), d)
                == spec_scan_same(s, i as int, text@, body@, inside, dir_views(parts@), d),
        decreases v.len() - i,
    {
        let ch = v[i];
        if ch == '\\' {
            if i + 1 < v.len() {
                if inside {
                    body.push(v[i + 1]);
                } else {
                    text.push(v[i + 1]);
                }
                i = i + 2;
            } else {
                i = i + 1;
            }
        } else if ch == d && i + 1 < v.len() && v[i + 1] == d {
            if inside {
                body.push(d);
            } else {
                text.push(d);
            }
            i = i + 2;
        } else if ch == d {
            if inside {
                let body_str = string_from_chars(&body);
                let tokens = Lexer::tokenize(body_str.as_str());
                match DefaultParser::parse(&tokens) {
                    Ok(dir) => {
                        parts.push(dir);
                        body = Vec::new();
                        inside = false;
                        proof {
                            assert(body@ =~= Seq::<char>::empty());
                        }
                    },
                    Err(e) => {
                        return Err(e);
                    },
                }
            } else {
                if text.len() > 0 {
                    let flushed = string_from_chars(&text);
                    parts.push(Directive::Literal(flushed));
                    text = Vec::new();
                }
                proof {
                    assert(text@ =~= Seq::<char>::empty());
                }
                inside = true;
            }
            i = i + 1;
        } else {
            if inside {
                body.push(ch);
            } else {
                text.push(ch);
            }
            i = i + 1;
        }
        proof {
            lemma_dir_views_push_auto();
        }
    }
    if inside {
        return Err(TemplateError::MissingDelimiter(d));
    }
    if text.len() > 0 {
        let flushed = string_from_chars(&text);
        parts.push(Directive::Literal(flushed));
        proof {
            lemma_dir_views_push_auto();
        }
    }
    Ok(parts)
}

/// Pushing a directive corresponds to pushing its view.
proof fn lemma_dir_views_push_auto()
    ensures
        forall|ds: Seq<Directive>, x: Directive|
            dir_views(#[trigger] ds.push(x)) == dir_views(ds).push(x@),
{
    assert forall|ds: Seq<Directive>, x: Directive|
        dir_views(#[trigger] ds.push(x)) == dir_views(ds).push(x@) by {
        assert(dir_views(ds.push(x)) =~= dir_views(ds).push(x@));
    }
}

impl Template {
    /// The nesting balance of a source under the given delimiters,
    /// respecting backslash escapes and doubled-delimiter escapes: 0 when
    /// balanced, positive when a close is missing, negative when a close
    /// has no matching open.
    pub fn validate(open_delim: char, close_delim: char, input: &str) -> (r: i128)
        ensures
            r == spec_balance(input@, open_delim, close_delim),
    {
        let v = chars_of(input);
        let ghost s = v@;
        if open_delim == close_delim {
            let mut inside: bool = false;
            let mut i: usize = 0;
            while i < v.len()
                invariant
                    i <= v.len(),
                    s == v@,
                    s == input@,
                    spec_balance_same(s, 0, false, open_delim) == spec_balance_same(
                        s,
                        i as int,
                        inside,
                        open_delim,
                    ),
                decreases v.len() - i,
            {
                let ch = v[i];
                if ch == '\\' {
                    if i + 1 < v.len() {
                        i = i + 2;
                    } else {
                        i = i + 1;
                    }
                } else if ch == open_delim && i + 1 < v.len() && v[i + 1] == open_delim {
                    i = i + 2;
                } else if ch == open_delim {
                    inside = !inside;
                    i = i + 1;
                } else {
                    i = i + 1;
                }
            }
            if inside {
                1
            } else {
                0
            }
        } else {
            let mut depth: usize = 0;
            let mut i: usize = 0;
            while i < v.len()
                invariant
                    i <= v.len(),
                    depth <= i,
                    s == v@,
                    s == input@,
                    spec_balance_distinct(s, 0, 0, open_delim, close_delim)
                        == spec_balance_distinct(
                        s,
                        i as int,
                        depth as int,
                        open_delim,
                        close_delim,
                    ),
                decreases v.len() - i,
            {
                let ch = v[i];
                if ch == '\\' {
                    if i + 1 < v.len() {
                        i = i + 2;
                    } else {
                        i = i + 1;
                    }
                } else if depth == 0 && ch == open_delim && i + 1 < v.len() && v[i + 1]
                    == open_delim {
                    i = i + 2;
                } else if depth == 0 && ch == close_delim && i + 1 < v.len() && v[i + 1]
                    == close_delim {
                    i = i + 2;
                } else if ch == open_delim {
                    depth = depth + 1;
                    i = i + 1;
                } else if ch == close_delim {
                    if depth == 0 {
                        return -1;
                    }
                    depth = depth - 1;
                    i = i + 1;
                } else {
                    i = i + 1;
                }
            }
            depth as i128
        }
    }

    /// Compiles a source string under the given delimiters.  Compilation
    /// fails with `MissingDelimiter` exactly when the balance pass is not
    /// zero, and with `DirectiveParsing` when a directive body matches no
    /// recognized shape.
    pub fn compile(open_delim: char, close_delim: char, source: &str) -> (r: Result<
        Template,
        TemplateError,
    >)
        requires
            open_delim != '\\',
            close_delim != '\\',
        ensures
            match r {
                Ok(t) => spec_compile(open_delim, close_delim, source@) == Ok::<
                    Seq<DirView>,
                    ErrView,
                >(t@.parts) && t@.open_delim == open_delim && t@.close_delim == close_delim,
                Err(e) => spec_compile(open_delim, close_delim, source@) == Err::<
                    Seq<DirView>,
                    ErrView,
                >(e@),
            },
    {
        let bal = Template::validate(open_delim, close_delim, source);
        if bal > 0 {
            return Err(TemplateError::MissingDelimiter(close_delim));
        }
        if bal < 0 {
            return Err(TemplateError::MissingDelimiter(open_delim));
        }
        let v = chars_of(source);
        if open_delim == close_delim {
            match scan_same(&v, open_delim) {
                Ok(parts) => Ok(Template { open_delim, close_delim, parts }),
                Err(e) => Err(e),
            }
        } else {
            match scan_distinct(&v, open_delim, close_delim) {
                Ok(parts) => Ok(Template { open_delim, close_delim, parts }),
                Err(e) => Err(e),
            }
        }
    }

    /// Compiles a source string under the default `{` and `}` delimiters.
    pub fn parse(source: &str) -> (r: Result<Template, TemplateError>)
        ensures
            match r {
                Ok(t) => spec_compile('{', '}', source@) == Ok::<Seq<DirView>, ErrView>(t@.parts)
                    && t@.open_delim == '{' && t@.close_delim == '}',
                Err(e) => spec_compile('{', '}', source@) == Err::<Seq<DirView>, ErrView>(e@),
            },
    {
        Template::compile('{', '}', source)
    }

    /// Renders the template against a context, fail-fast: the first error
    /// aborts the render and no partial output is returned.  The result
    /// depends on the compiled directives and the context alone.
    pub fn format(&self, ctx: &Context) -> (r: Result<String, TemplateError>)
        ensures
            match r {
                Ok(s) => spec_render(self@.parts, ctx@) == Ok::<Seq<char>, ErrView>(s@),
                Err(e) => spec_render(self@.parts, ctx@) == Err::<Seq<char>, ErrView>(e@),
            },
    {
        let ghost pviews = dir_views(self.parts@);
        let mut out = String::new();
        let mut i: usize = 0;
        proof {
            assert(forall|j: int| 0 <= j < self.parts@.len() ==> pviews[j] == self.parts@[j]@);
        }
        while i < self.parts.len()
            invariant
                i <= self.parts.len(),
                pviews == dir_views(self.parts@),
                pviews.len() == self.parts@.len(),
                spec_render_parts(pviews, 0, Seq::empty(), ctx@) == spec_render_parts(
                    pviews,
                    i as int,
                    out@,
                    ctx@,
                ),
            decreases self.parts.len() - i,
        {
            match self.parts[i].execute(ctx) {
                Ok(t) => {
                    out.append(t.as_str());
                },
                Err(e) => {
                    return Err(e);
                },
            }
            i = i + 1;
        }
        Ok(out)
    }
}

} // verus!
