//! The typed value model: a `Variable` is a tagged value whose tag never
//! changes after declaration.

use vstd::prelude::*;

verus! {

/// A typed story variable: an integer, a boolean, or a piece of text.
#[derive(Debug, Clone)]
pub enum Variable {
    Num(i32),
    Bool(bool),
    Str(String),
}

/// The mathematical value of a [`Variable`].
pub enum ValueV {
    Num(int),
    Bool(bool),
    Str(Seq<char>),
}

/// The tag of a [`Variable`].
#[derive(Debug, Clone, Copy, PartialEq, Eq, Structural)]
pub enum VarType {
    Num,
    Bool,
    Str,
}

impl ValueV {
    /// The tag of a value.
    pub open spec fn typ(self) -> VarType {
        match self {
            ValueV::Num(_) => VarType::Num,
            ValueV::Bool(_) => VarType::Bool,
            ValueV::Str(_) => VarType::Str,
        }
    }
}

impl View for Variable {
    type V = ValueV;

    open spec fn view(&self) -> ValueV {
        match self {
            Variable::Num(x) => ValueV::Num(*x as int),
            Variable::Bool(b) => ValueV::Bool(*b),
            Variable::Str(s) => ValueV::Str(s@),
        }
    }
}

impl Variable {
    /// Returns the tag of this variable.
    pub fn type_(&self) -> (t: VarType)
        ensures
            t == self@.typ(),
    {
        match self {
            Variable::Num(_) => VarType::Num,
            Variable::Bool(_) => VarType::Bool,
            Variable::Str(_) => VarType::Str,
        }
    }

    /// Returns whether two variables carry the same tag.
    pub fn type_eq(&self, other: &Variable) -> (r: bool)
        ensures
            r == (self@.typ() == other@.typ()),
    {
        self.type_() == other.type_()
    }
}

/// Copies a variable; the copy's value equals the original's.
pub fn clone_variable(v: &Variable) -> (r: Variable)
    ensures
        r@ == v@,
{
    match v {
        Variable::Num(x) => Variable::Num(*x),
        Variable::Bool(b) => Variable::Bool(*b),
        Variable::Str(s) => Variable::Str(s.clone()),
    }
}

} // verus!
