use vstd::prelude::*;

verus! {

/// The storage class of a variable.
#[derive(Debug, Clone, Copy, PartialEq, Eq, Structural)]
pub enum Scope {
    Field,
    Static,
    Var,
    Arg,
}

/// The declared type of a variable.
#[derive(Debug)]
pub enum SymType {
    Int,
    Boolean,
    Char,
    Class(String),
}

impl SymType {
    /// A copy of this type.
    pub fn duplicate(&self) -> (r: SymType)
        ensures
            r@ == self@,
    {
        match self {
            SymType::Int => SymType::Int,
            SymType::Boolean => SymType::Boolean,
            SymType::Char => SymType::Char,
            SymType::Class(s) => SymType::Class(s.clone()),
        }
    }
}

pub enum SymTypeView {
    Int,
    Boolean,
    Char,
    Class(Seq<char>),
}

impl View for SymType {
    type V = SymTypeView;

    open spec fn view(&self) -> SymTypeView {
        match self {
            SymType::Int => SymTypeView::Int,
            SymType::Boolean => SymTypeView::Boolean,
            SymType::Char => SymTypeView::Char,
            SymType::Class(s) => SymTypeView::Class(s@),
        }
    }
}

/// What can go wrong while generating code from a parse tree.
#[derive(Debug, Clone, Copy, PartialEq, Eq, Structural)]
pub enum CompileError {
    /// The tree does not have the shape that the grammar gives it.
    MalformedTree,
    /// A name that is neither a variable of the subroutine nor of the class.
    UnresolvedSymbol,
    /// A method is called on a variable whose type is not a class.
    NotAnObject,
    /// A name declared twice in one scope.
    DuplicateDeclaration,
    /// An offset or label counter would exceed the machine word.
    CounterOverflow,
}

/// One entry of a symbol table.
#[derive(Debug)]
pub struct SymbolicVariable {
    pub name: String,
    pub sym_type: SymType,
    pub scope: Scope,
    pub index: usize,
}

pub struct VarView {
    pub name: Seq<char>,
    pub ty: SymTypeView,
    pub scope: Scope,
    pub index: nat,
}

impl View for SymbolicVariable {
    type V = VarView;

    open spec fn view(&self) -> VarView {
        VarView { name: self.name@, ty: self.sym_type@, scope: self.scope, index: self.index as nat }
    }
}

/// The variables of one scope (a class or a subroutine), with the scope's name and, for a
/// class, the counters that number its generated labels.
#[derive(Debug)]
pub struct SymbolTable {
    pub table: Vec<SymbolicVariable>,
    pub field_offset: usize,
    pub static_offset: usize,
    pub var_offset: usize,
    pub arg_offset: usize,
    pub if_labels: usize,
    pub while_labels: usize,
    pub name: String,
}

pub struct TableView {
    pub name: Seq<char>,
    pub vars: Seq<VarView>,
    pub ifs: nat,
    pub whiles: nat,
}

impl View for SymbolTable {
    type V = TableView;

    open spec fn view(&self) -> TableView {
        TableView {
            name: self.name@,
            vars: self.table@.map_values(|v: SymbolicVariable| v@),
            ifs: self.if_labels as nat,
            whiles: self.while_labels as nat,
        }
    }
}

/// How many of `vs` have storage class `s`.
pub open spec fn count_scope(vs: Seq<VarView>, s: Scope) -> nat
    decreases vs.len(),
{
    if vs.len() == 0 {
        0
    } else {
        count_scope(vs.drop_last(), s) + if vs.last().scope == s { 1nat } else { 0nat }
    }
}

/// The variable named `name` among `vs`, the latest one if there are several.
pub open spec fn lookup(vs: Seq<VarView>, name: Seq<char>) -> Option<VarView>
    decreases vs.len(),
{
    if vs.len() == 0 {
        None
    } else if vs.last().name == name {
        Some(vs.last())
    } else {
        lookup(vs.drop_last(), name)
    }
}

/// `vs` with a new variable, numbered after those of its storage class; a name that is
/// already there is refused.
pub open spec fn add_var(vs: Seq<VarView>, name: Seq<char>, ty: SymTypeView, s: Scope) -> Result<Seq<VarView>, CompileError> {
    if lookup(vs, name) is Some {
        Err(CompileError::DuplicateDeclaration)
    } else if count_scope(vs, s) >= usize::MAX {
        Err(CompileError::CounterOverflow)
    } else {
        Ok(vs.push(VarView { name, ty, scope: s, index: count_scope(vs, s) }))
    }
}

pub proof fn lemma_count_push(vs: Seq<VarView>, v: VarView, s: Scope)
    ensures
        count_scope(vs.push(v), s) == count_scope(vs, s) + if v.scope == s { 1nat } else { 0nat },
{
    assert(vs.push(v).drop_last() =~= vs);
}

pub proof fn lemma_count_bound(vs: Seq<VarView>, s: Scope)
    ensures
        count_scope(vs, s) <= vs.len(),
    decreases vs.len(),
{
    if vs.len() > 0 {
        lemma_count_bound(vs.drop_last(), s);
    }
}

impl SymbolTable {
    /// The counters agree with the entries, and every entry's offset counts the entries
    /// of its storage class declared before it.
    pub open spec fn wf(&self) -> bool {
        &&& offsets_in_order(self@.vars)
        &&& self.field_offset == count_scope(self@.vars, Scope::Field)
        &&& self.static_offset == count_scope(self@.vars, Scope::Static)
        &&& self.var_offset == count_scope(self@.vars, Scope::Var)
        &&& self.arg_offset == count_scope(self@.vars, Scope::Arg)
    }

    /// An empty table with an empty name.
    pub fn new() -> (r: Self)
        ensures
            r.wf(),
            r@.name.len() == 0,
            r@.vars.len() == 0,
            r@.ifs == 0,
            r@.whiles == 0,
    {
        let r = SymbolTable {
            table: Vec::new(),
            field_offset: 0,
            static_offset: 0,
            var_offset: 0,
            arg_offset: 0,
            if_labels: 0,
            while_labels: 0,
            name: String::new(),
        };
        assert(r@.vars =~= Seq::<VarView>::empty());
        r
    }

    /// Declares `name` with the next offset of its storage class.
    pub fn add(&mut self, name: &String, sym_type: &SymType, scope: Scope) -> (r: Result<(), CompileError>)
        requires
            old(self).wf(),
        ensures
            final(self).wf(),
            match add_var(old(self)@.vars, name@, sym_type@, scope) {
                Ok(vs) => r is Ok && final(self)@ == (TableView { vars: vs, ..old(self)@ }),
                Err(e) => r == Err::<(), CompileError>(e) && final(self)@ == old(self)@,
            },
    {
        if self.get(name).is_some() {
            return Err(CompileError::DuplicateDeclaration);
        }
        let offset = match scope {
            Scope::Field => self.field_offset,
            Scope::Static => self.static_offset,
            Scope::Var => self.var_offset,
            Scope::Arg => self.arg_offset,
        };
        if offset == usize::MAX {
            return Err(CompileError::CounterOverflow);
        }
        match scope {
            Scope::Field => self.field_offset = offset + 1,
            Scope::Static => self.static_offset = offset + 1,
            Scope::Var => self.var_offset = offset + 1,
            Scope::Arg => self.arg_offset = offset + 1,
        }
        let v = SymbolicVariable { name: name.clone(), sym_type: sym_type.duplicate(), scope, index: offset };
        let ghost old_vars = self@.vars;
        self.table.push(v);
        proof {
            assert(self@.vars =~= old_vars.push(v@));
            lemma_count_push(old_vars, v@, Scope::Field);
            lemma_count_push(old_vars, v@, Scope::Static);
            lemma_count_push(old_vars, v@, Scope::Var);
            lemma_count_push(old_vars, v@, Scope::Arg);
            lemma_add_var_in_order(old_vars, name@, sym_type@, scope);
        }
        Ok(())
    }

    /// The variable named `name`.
    pub fn get(&self, name: &String) -> (r: Option<&SymbolicVariable>)
        ensures
            match lookup(self@.vars, name@) {
                Some(v) => r is Some && r->0@ == v,
                None => r is None,
            },
    {
        let mut i = self.table.len();
        assert(self@.vars.take(i as int) =~= self@.vars);
        while i > 0
            invariant
                i <= self.table@.len(),
                lookup(self@.vars, name@) == lookup(self@.vars.take(i as int), name@),
            decreases i,
        {
            let ghost pre = self@.vars.take(i as int);
            assert(pre.drop_last() =~= self@.vars.take(i - 1));
            if self.table[i - 1].name.eq(name) {
                return Some(&self.table[i - 1]);
            }
            i = i - 1;
        }
        None
    }
}

/// Each variable's offset is the number of variables of its storage class declared before
/// it: the Nth field has offset N-1, the Nth static N-1, and so on for each class apart.
pub open spec fn offsets_in_order(vs: Seq<VarView>) -> bool {
    forall|i: int| 0 <= i < vs.len() ==> #[trigger] vs[i].index == count_scope(vs.take(i), vs[i].scope)
}

/// Declaring a variable keeps the offsets in declaration order.
pub proof fn lemma_add_var_in_order(vs: Seq<VarView>, name: Seq<char>, ty: SymTypeView, s: Scope)
    requires
        offsets_in_order(vs),
        add_var(vs, name, ty, s) is Ok,
    ensures
        offsets_in_order(add_var(vs, name, ty, s)->Ok_0),
        add_var(vs, name, ty, s)->Ok_0.take(vs.len() as int) == vs,
{
    let r = add_var(vs, name, ty, s)->Ok_0;
    assert(r.take(vs.len() as int) =~= vs);
    assert forall|i: int| 0 <= i < r.len() implies #[trigger] r[i].index == count_scope(r.take(i), r[i].scope) by {
        if i < vs.len() {
            assert(r.take(i) =~= vs.take(i));
        } else {
            assert(r.take(i) =~= vs);
        }
    }
}

} // verus!
