//! The environment that the process was started in, as values.
use crate::text;
use vstd::prelude::*;
use vstd::string::*;

verus! {

/// A variable of the environment. It may be a secret, and has no words of its own.
pub struct Variable {
    /// Its name.
    pub name: String,
    /// Its value.
    pub value: String,
}

/// What a [`Variable`] says.
pub struct VariableView {
    pub name: Seq<char>,
    pub value: Seq<char>,
}

impl View for Variable {
    type V = VariableView;

    open spec fn view(&self) -> VariableView {
        VariableView { name: self.name@, value: self.value@ }
    }
}

/// The environment.
pub struct Environment {
    /// The variables that are text.
    pub variables: Vec<Variable>,
}

impl View for Environment {
    type V = Seq<VariableView>;

    open spec fn view(&self) -> Seq<VariableView> {
        self.variables@.map_values(|v: Variable| v@)
    }
}

/// The value of a variable, if it is set.
pub open spec fn lookup(env: Seq<VariableView>, name: Seq<char>) -> Option<Seq<char>>
    decreases env.len(),
{
    if env.len() == 0 {
        None
    } else if env[0].name == name {
        Some(env[0].value)
    } else {
        lookup(env.drop_first(), name)
    }
}

/// The value of a variable, if it is set and not empty.
pub open spec fn lookup_filled(env: Seq<VariableView>, name: Seq<char>) -> Option<Seq<char>> {
    match lookup(env, name) {
        Some(v) if v.len() > 0 => Some(v),
        _ => None,
    }
}

/// What a text that may be absent says.
pub open spec fn text_view(t: Option<String>) -> Option<Seq<char>> {
    match t {
        Some(s) => Some(s@),
        None => None,
    }
}

impl Environment {
    /// The value of a variable, if it is set.
    pub fn var(&self, name: &str) -> (value: Option<String>)
        ensures
            text_view(value) == lookup(self@, name@),
    {
        let n: usize = self.variables.len();
        let mut i: usize = 0;
        assert(self@.skip(0) =~= self@);
        while i < n
            invariant
                i <= n,
                n == self.variables@.len(),
                lookup(self@, name@) == lookup(self@.skip(i as int), name@),
            decreases n - i,
        {
            assert(self@.skip(i as int)[0] == self.variables@[i as int]@);
            if text::same_text(self.variables[i].name.as_str(), name) {
                return Some(self.variables[i].value.clone());
            }
            assert(self@.skip(i as int).drop_first() =~= self@.skip(i + 1));
            i = i + 1;
        }
        None
    }

    /// The value of a variable, if it is set and not empty.
    pub fn opt(&self, name: &str) -> (value: Option<String>)
        ensures
            text_view(value) == lookup_filled(self@, name@),
    {
        match self.var(name) {
            Some(v) => if v.as_str().is_empty() {
                None
            } else {
                Some(v)
            },
            None => None,
        }
    }
}

} // verus!
