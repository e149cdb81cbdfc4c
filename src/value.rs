//! Runtime values.
use vstd::prelude::*;
use vstd::string::*;

verus! {

/// A runtime value. A number is held as decimal text denoting it (a literal
/// as written in the source, or a result as the host rendered it): the
/// arithmetic on it is done by the host.
#[derive(Clone, PartialEq, Debug)]
pub enum Value {
    Bool(bool),
    Number(String),
    String(String),
    Nil,
}

/// What a value is, with its texts as character sequences.
pub enum Val {
    Bool(bool),
    Number(Seq<char>),
    Str(Seq<char>),
    Nil,
}

impl View for Value {
    type V = Val;

    open spec fn view(&self) -> Val {
        match self {
            Value::Bool(b) => Val::Bool(*b),
            Value::Number(t) => Val::Number(t@),
            Value::String(t) => Val::Str(t@),
            Value::Nil => Val::Nil,
        }
    }
}

/// Falsiness of a value's view.
pub open spec fn val_falsey(v: Val) -> bool {
    match v {
        Val::Nil => true,
        Val::Bool(b) => !b,
        _ => false,
    }
}

/// Equality of two views of which at most one is a number.
pub open spec fn val_same(a: Val, b: Val) -> bool {
    match (a, b) {
        (Val::Bool(x), Val::Bool(y)) => x == y,
        (Val::Str(x), Val::Str(y)) => x == y,
        (Val::Nil, Val::Nil) => true,
        _ => false,
    }
}

/// The display text of a view; a number's text as it is held.
pub open spec fn val_text(v: Val) -> Seq<char> {
    match v {
        Val::Bool(b) => if b { "true"@ } else { "false"@ },
        Val::Number(t) => t,
        Val::Str(t) => t,
        Val::Nil => "nil"@,
    }
}

/// Falsiness: `nil` and `false` are false, everything else is true.
pub open spec fn is_falsey(v: Value) -> bool {
    val_falsey(v@)
}

/// The display text of a value; a number's text as it is held.
pub open spec fn display_text(v: Value) -> Seq<char> {
    val_text(v@)
}

impl Value {
    /// A copy of the value; strings are copied, not shared.
    pub fn duplicate(&self) -> (r: Value)
        ensures
            r == *self,
    {
        match self {
            Value::Bool(b) => Value::Bool(*b),
            Value::Number(t) => Value::Number(t.clone()),
            Value::String(t) => Value::String(t.clone()),
            Value::Nil => Value::Nil,
        }
    }

    pub fn as_bool(&self) -> (r: bool)
        requires
            self is Bool,
        ensures
            r == self->Bool_0,
    {
        match self {
            Value::Bool(b) => *b,
            _ => false,
        }
    }

    /// The decimal text of a number.
    pub fn as_number(&self) -> (r: String)
        requires
            self is Number,
        ensures
            r@ == self->Number_0@,
    {
        match self {
            Value::Number(t) => t.clone(),
            _ => String::new(),
        }
    }

    pub fn as_string(&self) -> (r: String)
        requires
            self is String,
        ensures
            r@ == self->String_0@,
    {
        match self {
            Value::String(t) => t.clone(),
            _ => String::new(),
        }
    }

    pub fn is_bool(&self) -> (r: bool)
        ensures
            r == self is Bool,
    {
        matches!(self, Value::Bool(_))
    }

    pub fn is_number(&self) -> (r: bool)
        ensures
            r == self is Number,
    {
        matches!(self, Value::Number(_))
    }

    pub fn is_string(&self) -> (r: bool)
        ensures
            r == self is String,
    {
        matches!(self, Value::String(_))
    }

    pub fn is_nil(&self) -> (r: bool)
        ensures
            r == self is Nil,
    {
        matches!(self, Value::Nil)
    }

    pub fn is_falsey(&self) -> (r: bool)
        ensures
            r == is_falsey(*self),
    {
        self.is_nil() || (self.is_bool() && !self.as_bool())
    }

    /// The display text: `true`/`false`, a number's text, a string verbatim,
    /// or `nil`.
    pub fn to_text(&self) -> (r: String)
        ensures
            r@ == display_text(*self),
    {
        match self {
            Value::Bool(b) => if *b { String::from_str("true") } else { String::from_str("false") },
            Value::Number(t) => t.clone(),
            Value::String(t) => t.clone(),
            Value::Nil => String::from_str("nil"),
        }
    }
}

} // verus!
