//! The runtime value model and the rendering context.
//!
//! A `Value` is a string, a 64-bit signed integer, a decimal numeral standing
//! for a floating-point number, or a boolean.  A `Context` maps variable
//! names to values and is read, never changed, while a template renders.

use vstd::prelude::*;

use crate::num::{spec_int_text, int_to_string};
use crate::numeral::{
    spec_canon_numeral, spec_numeral_is_zero, canon_numeral, numeral_is_zero,
};
use crate::text::{chars_of, string_from_chars, str_eq};

verus! {

/// A runtime value.
///
/// The `Float` variant carries the decimal text of the number (for example
/// `"3.25"` or `"-0.5"`); the engine reads, renders and compares such a
/// value purely through its digits.
#[derive(Debug, Clone)]
pub enum Value {
    /// A UTF-8 string.
    Text(String),
    /// A 64-bit signed integer.
    Int(i64),
    /// A floating-point number, held as its decimal numeral text.
    Float(String),
    /// A boolean.
    Bool(bool),
}

/// The mathematical shape of a `Value`.
pub enum ValueView {
    Text(Seq<char>),
    Int(int),
    Float(Seq<char>),
    Bool(bool),
}

impl View for Value {
    type V = ValueView;

    open spec fn view(&self) -> ValueView {
        match self {
            Value::Text(s) => ValueView::Text(s@),
            Value::Int(i) => ValueView::Int(*i as int),
            Value::Float(t) => ValueView::Float(t@),
            Value::Bool(b) => ValueView::Bool(*b),
        }
    }
}

/// The text a value renders as: a string is itself, an integer and a float
/// use canonical decimal form, a boolean is `true` or `false`.
pub open spec fn spec_value_text(v: ValueView) -> Seq<char> {
    match v {
        ValueView::Text(s) => s,
        ValueView::Int(i) => spec_int_text(i),
        ValueView::Float(t) => spec_canon_numeral(t),
        ValueView::Bool(b) => if b {
            "true"@
        } else {
            "false"@
        },
    }
}

/// Existence-flavoured truthiness: a string is truthy when non-empty, a
/// number when non-zero, a boolean is itself.  A float whose text is not a
/// numeral counts as truthy.
pub open spec fn spec_truthy(v: ValueView) -> bool {
    match v {
        ValueView::Text(s) => s.len() > 0,
        ValueView::Int(i) => i != 0,
        ValueView::Float(t) => !spec_numeral_is_zero(t),
        ValueView::Bool(b) => b,
    }
}

/// The name of a value's type, as error reports spell it.
pub open spec fn spec_kind_name(v: ValueView) -> Seq<char> {
    match v {
        ValueView::Text(_) => "string"@,
        ValueView::Int(_) => "i64"@,
        ValueView::Float(_) => "float"@,
        ValueView::Bool(_) => "bool"@,
    }
}

impl Value {
    /// A string value borrowed from static text.
    pub fn static_str(s: &str) -> (r: Value)
        ensures
            r@ == ValueView::Text(s@),
    {
        Value::Text(String::from_str(s))
    }

    /// A string value from an owned string.
    pub fn owned_str(s: String) -> (r: Value)
        ensures
            r@ == ValueView::Text(s@),
    {
        Value::Text(s)
    }

    /// Renders the value as text.
    pub fn to_text(&self) -> (r: String)
        ensures
            r@ == spec_value_text(self@),
    {
        match self {
            Value::Text(s) => s.clone(),
            Value::Int(i) => int_to_string(*i),
            Value::Float(t) => {
                let chars = chars_of(t.as_str());
                let canon = canon_numeral(&chars);
                string_from_chars(&canon)
            },
            Value::Bool(b) => {
                if *b {
                    String::from_str("true")
                } else {
                    String::from_str("false")
                }
            },
        }
    }

    /// The truthiness of the value under the existence rule.
    pub fn truthy(&self) -> (r: bool)
        ensures
            r == spec_truthy(self@),
    {
        match self {
            Value::Text(s) => s.as_str().unicode_len() > 0,
            Value::Int(i) => *i != 0,
            Value::Float(t) => {
                let chars = chars_of(t.as_str());
                !numeral_is_zero(&chars)
            },
            Value::Bool(b) => *b,
        }
    }

    /// The name of the value's type.
    pub fn kind_name(&self) -> (r: String)
        ensures
            r@ == spec_kind_name(self@),
    {
        match self {
            Value::Text(_) => String::from_str("string"),
            Value::Int(_) => String::from_str("i64"),
            Value::Float(_) => String::from_str("float"),
            Value::Bool(_) => String::from_str("bool"),
        }
    }
}

/// The map denoted by a run of context entries; a later entry for the same
/// name wins.
pub open spec fn spec_entries_map(s: Seq<(String, Value)>) -> Map<Seq<char>, ValueView>
    decreases s.len(),
{
    if s.len() == 0 {
        Map::empty()
    } else {
        spec_entries_map(s.drop_last()).insert(s.last().0@, s.last().1@)
    }
}

/// The name-to-value mapping a template renders against.
pub struct Context {
    entries: Vec<(String, Value)>,
}

impl View for Context {
    type V = Map<Seq<char>, ValueView>;

    closed spec fn view(&self) -> Map<Seq<char>, ValueView> {
        spec_entries_map(self.entries@)
    }
}

impl Context {
    /// An empty context.
    pub fn new() -> (r: Context)
        ensures
            r@ == Map::<Seq<char>, ValueView>::empty(),
    {
        Context { entries: Vec::new() }
    }

    /// Binds a name to a value; a later binding of the same name replaces
    /// an earlier one.
    pub fn insert(&mut self, name: &str, value: Value)
        ensures
            final(self)@ == old(self)@.insert(name@, value@),
    {
        let ghost before = self.entries@;
        let owned = String::from_str(name);
        let ghost v = value@;
        self.entries.push((owned, value));
        proof {
            assert(self.entries@.drop_last() =~= before);
            assert(self.entries@.last().0@ == name@);
            assert(self.entries@.last().1@ == v);
        }
    }

    /// Looks a name up.
    pub fn get(&self, name: &str) -> (r: Option<&Value>)
        ensures
            match r {
                Some(v) => self@.dom().contains(name@) && v@ == self@[name@],
                None => !self@.dom().contains(name@),
            },
    {
        let ghost whole = self.entries@;
        let mut i: usize = self.entries.len();
        proof {
            assert(whole.take(whole.len() as int) =~= whole);
        }
        while i > 0
            invariant
                i <= self.entries.len(),
                whole == self.entries@,
                spec_entries_map(whole).dom().contains(name@) == spec_entries_map(
                    whole.take(i as int),
                ).dom().contains(name@),
                spec_entries_map(whole).dom().contains(name@) ==> spec_entries_map(whole)[name@]
                    == spec_entries_map(whole.take(i as int))[name@],
            decreases i,
        {
            let entry_name = &self.entries[i - 1].0;
            proof {
                assert(whole.take(i as int).last() == whole[i - 1]);
                assert(whole.take(i as int).drop_last() =~= whole.take(i - 1));
            }
            if str_eq(entry_name.as_str(), name) {
                return Some(&self.entries[i - 1].1);
            }
            i = i - 1;
        }
        proof {
            assert(whole.take(0).len() == 0);
        }
        None
    }
}

} // verus!
