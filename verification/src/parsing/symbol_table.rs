//! The names that a script can refer to while its expressions are evaluated.

use crate::parsing::expressions::{ExpressionResult, Value};
use crate::text::same_text;
use vstd::prelude::*;

verus! {

/// No value is bound to the name.
#[derive(Debug, Clone, Copy, PartialEq, Eq, Structural)]
pub struct NameNotFound;

/// Values bound to names. Evaluation only reads it.
#[derive(Debug)]
pub struct SymbolTable {
    names: Vec<String>,
    values: Vec<ExpressionResult>,
}

/// The bindings that the first `n` entries make; a later entry for a name
/// replaces an earlier one.
pub open spec fn bindings_of(
    names: Seq<String>,
    values: Seq<ExpressionResult>,
    n: int,
) -> Map<Seq<char>, Value>
    decreases n,
{
    if n <= 0 {
        Map::empty()
    } else {
        bindings_of(names, values, n - 1).insert(names[n - 1]@, values[n - 1]@)
    }
}

/// Entries behind the first `n` do not matter to the bindings of the first `n`.
proof fn lemma_bindings_of_prefix(
    names: Seq<String>,
    values: Seq<ExpressionResult>,
    name: String,
    value: ExpressionResult,
    n: int,
)
    requires
        n <= names.len(),
        n <= values.len(),
    ensures
        bindings_of(names.push(name), values.push(value), n) == bindings_of(names, values, n),
    decreases n,
{
    if n > 0 {
        lemma_bindings_of_prefix(names, values, name, value, n - 1);
    }
}

impl View for SymbolTable {
    type V = Map<Seq<char>, Value>;

    closed spec fn view(&self) -> Map<Seq<char>, Value> {
        bindings_of(self.names@, self.values@, self.names@.len() as int)
    }
}

impl SymbolTable {
    /// Every name has its value.
    #[verifier::type_invariant]
    closed spec fn well_formed(self) -> bool {
        self.names@.len() == self.values@.len()
    }

    /// A table that binds no name.
    pub fn new() -> (table: Self)
        ensures
            table@ == Map::<Seq<char>, Value>::empty(),
    {
        SymbolTable { names: Vec::new(), values: Vec::new() }
    }

    /// Binds `value` to `name`, in place of what the name was bound to.
    pub fn bind(self, name: String, value: ExpressionResult) -> (table: Self)
        ensures
            table@ == self@.insert(name@, value@),
    {
        proof {
            use_type_invariant(&self);
            lemma_bindings_of_prefix(
                self.names@,
                self.values@,
                name,
                value,
                self.names@.len() as int,
            );
        }
        let mut names = self.names;
        let mut values = self.values;
        names.push(name);
        values.push(value);
        SymbolTable { names, values }
    }

    /// The value that is bound to `name`.
    pub fn lookup(&self, name: &str) -> (r: Result<ExpressionResult, NameNotFound>)
        ensures
            match r {
                Ok(value) => self@.contains_key(name@) && self@[name@] == value@,
                Err(_) => !self@.contains_key(name@),
            },
    {
        proof {
            use_type_invariant(self);
        }
        let mut i: usize = self.names.len();
        while i > 0
            invariant
                0 <= i <= self.names@.len(),
                self.names@.len() == self.values@.len(),
                self@.contains_key(name@) == bindings_of(
                    self.names@,
                    self.values@,
                    i as int,
                ).contains_key(name@),
                self@.contains_key(name@) ==> self@[name@] == bindings_of(
                    self.names@,
                    self.values@,
                    i as int,
                )[name@],
            decreases i,
        {
            i = i - 1;
            if same_text(self.names[i].as_str(), name) {
                return Ok(self.values[i].clone());
            }
        }
        Err(NameNotFound)
    }
}

} // verus!
