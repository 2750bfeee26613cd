//! Static types and the scoped symbol table.
//!
//! The table is a stack of scopes, innermost last, each mapping variable names
//! to their declared type, beside one flat table of function names and their
//! parameter lists. A name may be declared again in a nested scope, where it
//! shadows the outer declaration, but not twice in one scope. Function names
//! are unique in the whole table.

use crate::bindings::NameMap;
use vstd::prelude::*;

verus! {

/// The static type of a variable or an expression.
#[derive(Debug, PartialEq, Eq, Clone, Copy, Structural)]
pub enum Type {
    Int,
    Float,
    String,
    Bool,
}

/// Why a declaration was refused.
#[derive(Debug, PartialEq, Eq, Clone, Copy, Structural)]
pub enum DeclarationError {
    /// The innermost scope already declares a variable of this name.
    DuplicateVariable,
    /// A function of this name is already declared.
    DuplicateFunction,
}

/// One scope: the variables declared in it, with their types.
pub type Scope = Map<Seq<char>, Type>;

/// The mathematical content of a [`SymbolTable`].
pub struct SymbolTableView {
    /// The open scopes, outermost first.
    pub scopes: Seq<Scope>,
    /// Every declared function, with its parameter names in order.
    pub functions: Map<Seq<char>, Seq<Seq<char>>>,
}

/// The type `name` resolves to: that of its innermost declaration.
pub open spec fn resolve(scopes: Seq<Scope>, name: Seq<char>) -> Option<Type>
    decreases scopes.len(),
{
    if scopes.len() == 0 {
        None
    } else if scopes.last().contains_key(name) {
        Some(scopes.last()[name])
    } else {
        resolve(scopes.drop_last(), name)
    }
}

/// The scopes after `name` is declared with type `var_type` in the innermost one.
pub open spec fn declare(scopes: Seq<Scope>, name: Seq<char>, var_type: Type) -> Seq<Scope>
    recommends
        scopes.len() > 0,
{
    scopes.update(scopes.len() - 1, scopes.last().insert(name, var_type))
}

impl SymbolTableView {
    /// The table with one empty scope and no function.
    pub open spec fn initial() -> SymbolTableView {
        SymbolTableView { scopes: seq![Map::empty()], functions: Map::empty() }
    }

    /// What [`SymbolTable::declare_variable`] returns and leaves behind.
    pub open spec fn declare_variable(self, name: Seq<char>, var_type: Type) -> Result<
        SymbolTableView,
        DeclarationError,
    >
        recommends
            self.scopes.len() > 0,
    {
        if self.scopes.last().contains_key(name) {
            Err(DeclarationError::DuplicateVariable)
        } else {
            Ok(SymbolTableView { scopes: declare(self.scopes, name, var_type), ..self })
        }
    }

    /// What [`SymbolTable::declare_function`] returns and leaves behind.
    pub open spec fn declare_function(self, name: Seq<char>, params: Seq<Seq<char>>) -> Result<
        SymbolTableView,
        DeclarationError,
    > {
        if self.functions.contains_key(name) {
            Err(DeclarationError::DuplicateFunction)
        } else {
            Ok(SymbolTableView { functions: self.functions.insert(name, params), ..self })
        }
    }

    /// The table with a fresh empty scope opened.
    pub open spec fn enter_scope(self) -> SymbolTableView {
        SymbolTableView { scopes: self.scopes.push(Map::empty()), ..self }
    }

    /// The table with the innermost scope closed, if there is one.
    pub open spec fn exit_scope(self) -> SymbolTableView {
        if self.scopes.len() > 0 {
            SymbolTableView { scopes: self.scopes.drop_last(), ..self }
        } else {
            self
        }
    }
}

/// The symbol table.
#[derive(Debug)]
pub struct SymbolTable {
    scopes: Vec<NameMap<Type>>,
    functions: NameMap<Vec<String>>,
}

impl View for SymbolTable {
    type V = SymbolTableView;

    closed spec fn view(&self) -> SymbolTableView {
        SymbolTableView {
            scopes: Seq::new(self.scopes.len() as nat, |i: int| self.scopes[i]@),
            functions: self.functions@.map_values(|params: Vec<String>| params.deep_view()),
        }
    }
}

impl SymbolTable {
    /// Well-formedness of the representation. Every constructor establishes it
    /// and every method preserves it.
    pub closed spec fn wf(self) -> bool {
        &&& self.functions.wf()
        &&& forall|i: int| 0 <= i < self.scopes.len() ==> (#[trigger] self.scopes[i]).wf()
    }

    /// A table with one empty scope, the global one, and no function.
    pub fn new() -> (table: Self)
        ensures
            table.wf(),
            table@ == SymbolTableView::initial(),
    {
        let mut scopes: Vec<NameMap<Type>> = Vec::new();
        scopes.push(NameMap::new());
        let table = SymbolTable { scopes, functions: NameMap::new() };
        assert(table@.scopes =~= seq![Map::empty()]);
        assert(table@.functions =~= Map::empty());
        table
    }

    /// The number of open scopes.
    pub fn depth(&self) -> (n: usize)
        ensures
            n == self@.scopes.len(),
    {
        self.scopes.len()
    }

    /// Declares `name` with type `var_type` in the innermost scope. A second
    /// declaration of the name in that scope is refused and leaves the table
    /// as it was; a declaration in an outer scope does not stand in the way.
    pub fn declare_variable(&mut self, name: &str, var_type: Type) -> (r: Result<
        (),
        DeclarationError,
    >)
        requires
            old(self).wf(),
            old(self)@.scopes.len() > 0,
        ensures
            final(self).wf(),
            match old(self)@.declare_variable(name@, var_type) {
                Ok(table) => r is Ok && final(self)@ == table,
                Err(e) => r == Err::<(), DeclarationError>(e) && final(self)@ == old(self)@,
            },
    {
        self.declare(name.to_owned(), var_type)
    }

    /// [`SymbolTable::declare_variable`] for a name that is already owned.
    pub(crate) fn declare(&mut self, name: String, var_type: Type) -> (r: Result<(), DeclarationError>)
        requires
            old(self).wf(),
            old(self)@.scopes.len() > 0,
        ensures
            final(self).wf(),
            match old(self)@.declare_variable(name@, var_type) {
                Ok(table) => r is Ok && final(self)@ == table,
                Err(e) => r == Err::<(), DeclarationError>(e) && final(self)@ == old(self)@,
            },
    {
        let last = self.scopes.len() - 1;
        if self.scopes[last].contains(&name) {
            return Err(DeclarationError::DuplicateVariable);
        }
        let ghost before = *self;
        let mut scope = self.scopes.pop().unwrap();
        scope.insert(name, var_type);
        self.scopes.push(scope);
        proof {
            assert(self@.scopes =~= declare(before@.scopes, name@, var_type));
        }
        Ok(())
    }

    /// The type of `name`: that of its innermost declaration among the open
    /// scopes, or `None` where no open scope declares it.
    pub fn get_variable_type(&self, name: &str) -> (r: Option<Type>)
        requires
            self.wf(),
        ensures
            r == resolve(self@.scopes, name@),
    {
        self.lookup(&name.to_owned())
    }

    /// [`SymbolTable::get_variable_type`] for a name that is already owned.
    pub(crate) fn lookup(&self, name: &String) -> (r: Option<Type>)
        requires
            self.wf(),
        ensures
            r == resolve(self@.scopes, name@),
    {
        let mut i: usize = self.scopes.len();
        assert(self@.scopes.take(i as int) =~= self@.scopes);
        while i > 0
            invariant
                self.wf(),
                i <= self.scopes.len(),
                resolve(self@.scopes, name@) == resolve(self@.scopes.take(i as int), name@),
            decreases i,
        {
            proof {
                assert(self@.scopes.take(i as int).drop_last() =~= self@.scopes.take(i - 1));
            }
            i -= 1;
            match self.scopes[i].get(name) {
                Some(t) => {
                    return Some(*t);
                },
                None => {},
            }
        }
        None
    }

    /// Whether some open scope declares `name`.
    pub fn contains_variable(&self, name: &str) -> (b: bool)
        requires
            self.wf(),
        ensures
            b == resolve(self@.scopes, name@) is Some,
    {
        self.get_variable_type(name).is_some()
    }

    /// Closes the innermost scope and forgets what it declared. With no open
    /// scope the table stays as it is.
    pub fn exit_scope(&mut self)
        requires
            old(self).wf(),
        ensures
            final(self).wf(),
            final(self)@ == old(self)@.exit_scope(),
    {
        let ghost before = *self;
        let _ = self.scopes.pop();
        proof {
            if before.scopes.len() > 0 {
                assert(self@.scopes =~= before@.scopes.drop_last());
            } else {
                assert(self@.scopes =~= before@.scopes);
            }
        }
    }

    /// Opens a fresh empty scope inside the current one.
    pub fn enter_scope(&mut self)
        requires
            old(self).wf(),
        ensures
            final(self).wf(),
            final(self)@ == old(self)@.enter_scope(),
    {
        let ghost before = *self;
        self.scopes.push(NameMap::new());
        proof {
            assert(self@.scopes =~= before@.scopes.push(Map::empty()));
        }
    }

    /// Declares the function `name` with the parameter names `params`. A
    /// second declaration of the name is refused and leaves the table as it
    /// was.
    pub fn declare_function(&mut self, name: &str, params: Vec<String>) -> (r: Result<
        (),
        DeclarationError,
    >)
        requires
            old(self).wf(),
        ensures
            final(self).wf(),
            match old(self)@.declare_function(name@, params.deep_view()) {
                Ok(table) => r is Ok && final(self)@ == table,
                Err(e) => r == Err::<(), DeclarationError>(e) && final(self)@ == old(self)@,
            },
    {
        let name = name.to_owned();
        if self.functions.contains(&name) {
            return Err(DeclarationError::DuplicateFunction);
        }
        let ghost before = *self;
        self.functions.insert(name, params);
        proof {
            assert(self@.scopes =~= before@.scopes);
            assert(self@.functions =~= before@.functions.insert(name@, params.deep_view()));
        }
        Ok(())
    }

    /// The parameter names of the function `name`, if it is declared.
    pub fn function_params(&self, name: &str) -> (r: Option<&Vec<String>>)
        requires
            self.wf(),
        ensures
            match r {
                Some(params) => self@.functions.contains_key(name@) && params.deep_view()
                    == self@.functions[name@],
                None => !self@.functions.contains_key(name@),
            },
    {
        self.functions.get(&name.to_owned())
    }
}

impl Clone for SymbolTable {
    /// A copy of the table: the same scopes and the same functions.
    fn clone(&self) -> (r: Self)
        ensures
            self.wf() ==> r.wf() && r@ == self@,
    {
        let mut scopes: Vec<NameMap<Type>> = Vec::new();
        let mut i: usize = 0;
        while i < self.scopes.len()
            invariant
                i <= self.scopes.len(),
                scopes.len() == i,
                self.wf() ==> forall|j: int|
                    0 <= j < i ==> (#[trigger] scopes[j]).wf() && scopes[j]@ == self.scopes[j]@,
            decreases self.scopes.len() - i,
        {
            let scope = self.scopes[i].clone();
            proof {
                if self.wf() {
                    assert(scope@ =~= self.scopes[i as int]@);
                }
            }
            scopes.push(scope);
            i += 1;
        }
        let functions = self.functions.clone();
        let r = SymbolTable { scopes, functions };
        proof {
            if self.wf() {
                assert(r@.scopes =~= self@.scopes);
                assert forall|k: Seq<char>| #[trigger]
                    self.functions@.contains_key(k) implies r.functions@[k].deep_view()
                    == self.functions@[k].deep_view() by {
                    assert(cloned::<Vec<String>>(self.functions@[k], r.functions@[k]));
                    assert(r.functions@[k].deep_view() =~= self.functions@[k].deep_view());
                }
                assert(r@.functions =~= self@.functions);
            }
        }
        r
    }
}

impl Type {
    /// The name of the type as a program writes it.
    pub open spec fn spec_name(self) -> Seq<char> {
        match self {
            Type::Int => "int"@,
            Type::Float => "float"@,
            Type::String => "string"@,
            Type::Bool => "bool"@,
        }
    }

    /// The name of the type as a program writes it.
    pub fn name(&self) -> (text: &'static str)
        ensures
            text@ == self.spec_name(),
    {
        match self {
            Type::Int => "int",
            Type::Float => "float",
            Type::String => "string",
            Type::Bool => "bool",
        }
    }
}

impl DeclarationError {
    /// What went wrong, in words.
    pub open spec fn spec_message(self) -> Seq<char> {
        match self {
            DeclarationError::DuplicateVariable => "variable is already declared in the current scope"@,
            DeclarationError::DuplicateFunction => "function is already declared"@,
        }
    }

    /// What went wrong, in words.
    pub fn message(&self) -> (text: &'static str)
        ensures
            text@ == self.spec_message(),
    {
        match self {
            DeclarationError::DuplicateVariable => "variable is already declared in the current scope",
            DeclarationError::DuplicateFunction => "function is already declared",
        }
    }
}

} // verus!
