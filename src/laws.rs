use vstd::prelude::*;
use crate::analyzer::{body_code, class_var_dec, initial_args, locals_from, names_from, if_code, while_code, param_list, params_from, receiver, stmt_code, stmts_elem, stmts_from, subroutine_code, sym_type_of, var_dec};
use crate::lexer::{Keyword, Symbol, Token};
use crate::parser::{NonTerminalType, ProgramElement, is_keyword, is_node, kids};
use crate::symbols::{Scope, SymTypeView, TableView, VarView, add_var, count_scope, lemma_add_var_in_order, offsets_in_order};

verus! {

proof fn lemma_names_in_order(vs: Seq<VarView>, cs: Seq<ProgramElement>, i: int, ty: SymTypeView, s: Scope)
    requires
        offsets_in_order(vs),
        names_from(vs, cs, i, ty, s) is Ok,
    ensures
        offsets_in_order(names_from(vs, cs, i, ty, s)->Ok_0),
        names_from(vs, cs, i, ty, s)->Ok_0.len() >= vs.len(),
        names_from(vs, cs, i, ty, s)->Ok_0.take(vs.len() as int) == vs,
    decreases cs.len() - i,
{
    let r = names_from(vs, cs, i, ty, s)->Ok_0;
    if 0 <= i < cs.len() {
        match cs[i] {
            ProgramElement::Terminal(Token::Identifier(n)) => {
                lemma_add_var_in_order(vs, n@, ty, s);
                let vs2 = add_var(vs, n@, ty, s)->Ok_0;
                lemma_names_in_order(vs2, cs, i + 1, ty, s);
                assert(r.take(vs.len() as int) =~= r.take(vs2.len() as int).take(vs.len() as int));
            },
            ProgramElement::Terminal(Token::Symbol(Symbol::Comma)) => {
                lemma_names_in_order(vs, cs, i + 1, ty, s);
            },
            _ => {
                assert(r.take(vs.len() as int) =~= vs);
            },
        }
    }
}

/// The variables that a declaration adds, all of storage class `s`, numbered on from the
/// variables of that class already there.
pub open spec fn appended(vs: Seq<VarView>, r: Seq<VarView>, s: Scope) -> bool {
    &&& r.len() >= vs.len()
    &&& r.take(vs.len() as int) == vs
    &&& forall|k: int| vs.len() <= k < r.len() ==> (#[trigger] r[k]).scope == s
        && r[k].index == count_scope(vs, s) + (k - vs.len())
    &&& count_scope(r, s) == count_scope(vs, s) + (r.len() - vs.len())
    &&& forall|o: Scope| o != s ==> #[trigger] count_scope(r, o) == count_scope(vs, o)
}

proof fn lemma_names_append(vs: Seq<VarView>, cs: Seq<ProgramElement>, i: int, ty: SymTypeView, s: Scope)
    requires
        names_from(vs, cs, i, ty, s) is Ok,
    ensures
        appended(vs, names_from(vs, cs, i, ty, s)->Ok_0, s),
    decreases cs.len() - i,
{
    let r = names_from(vs, cs, i, ty, s)->Ok_0;
    if 0 <= i < cs.len() {
        match cs[i] {
            ProgramElement::Terminal(Token::Identifier(n)) => {
                let vs2 = add_var(vs, n@, ty, s)->Ok_0;
                let v = vs2.last();
                assert(vs2 =~= vs.push(v));
                assert(vs2.take(vs.len() as int) =~= vs);
                lemma_names_append(vs2, cs, i + 1, ty, s);
                assert(r.take(vs.len() as int) =~= r.take(vs2.len() as int).take(vs.len() as int));
                crate::symbols::lemma_count_push(vs, v, s);
                assert forall|o: Scope| o != s implies #[trigger] count_scope(r, o) == count_scope(vs, o) by {
                    crate::symbols::lemma_count_push(vs, v, o);
                    assert(count_scope(r, o) == count_scope(vs2, o));
                }
                assert forall|k: int| vs.len() <= k < r.len() implies (#[trigger] r[k]).scope == s
                    && r[k].index == count_scope(vs, s) + (k - vs.len()) by {
                    if k == vs.len() {
                        assert(r[k] == r.take(vs2.len() as int)[k]);
                    }
                }
            },
            ProgramElement::Terminal(Token::Symbol(Symbol::Comma)) => {
                lemma_names_append(vs, cs, i + 1, ty, s);
            },
            _ => {
                assert(r.take(vs.len() as int) =~= vs);
            },
        }
    }
}

/// What a class variable declaration adds to the class's variables: its names, in order,
/// with the storage class its keyword gives and offsets counted on from that class's.
pub proof fn lemma_class_var_dec_appends(vs: Seq<VarView>, cs: Seq<ProgramElement>)
    requires
        class_var_dec(vs, cs) is Ok,
    ensures
        cs.len() >= 2,
        is_keyword(cs[0], Keyword::Field) || is_keyword(cs[0], Keyword::Static),
        appended(vs, class_var_dec(vs, cs)->Ok_0,
            if is_keyword(cs[0], Keyword::Field) { Scope::Field } else { Scope::Static }),
{
    reveal(class_var_dec);
    let s = if is_keyword(cs[0], Keyword::Field) { Scope::Field } else { Scope::Static };
    lemma_names_append(vs, cs, 2, sym_type_of(cs[1])->Ok_0, s);
}

/// Class variable declarations give offsets in declaration order, counted apart for each
/// storage class: the Nth field declared in a class has field offset N-1 and the Nth static
/// has static offset N-1, whatever the number of the other. (A class's table starts empty,
/// where this holds trivially, and grows only by these declarations.)
pub proof fn lemma_class_var_offsets(vs: Seq<VarView>, cs: Seq<ProgramElement>)
    requires
        offsets_in_order(vs),
        class_var_dec(vs, cs) is Ok,
    ensures
        offsets_in_order(class_var_dec(vs, cs)->Ok_0),
        class_var_dec(vs, cs)->Ok_0.take(vs.len() as int) == vs,
{
    reveal(class_var_dec);
    let s = if cs[0] matches ProgramElement::Terminal(Token::Keyword(Keyword::Field)) { Scope::Field } else { Scope::Static };
    lemma_names_in_order(vs, cs, 2, sym_type_of(cs[1])->Ok_0, s);
}

/// Local variable declarations give offsets in declaration order as well.
pub proof fn lemma_local_offsets(vs: Seq<VarView>, cs: Seq<ProgramElement>)
    requires
        offsets_in_order(vs),
        var_dec(vs, cs) is Ok,
    ensures
        offsets_in_order(var_dec(vs, cs)->Ok_0),
        var_dec(vs, cs)->Ok_0.take(vs.len() as int) == vs,
{
    reveal(var_dec);
    lemma_names_in_order(vs, cs, 2, sym_type_of(cs[1])->Ok_0, Scope::Var);
}

proof fn lemma_params_extend(vs: Seq<VarView>, ps: Seq<ProgramElement>, i: int)
    requires
        params_from(vs, ps, i) is Ok,
    ensures
        params_from(vs, ps, i)->Ok_0.len() >= vs.len(),
        params_from(vs, ps, i)->Ok_0.take(vs.len() as int) == vs,
    decreases ps.len() - i,
{
    let r = params_from(vs, ps, i)->Ok_0;
    if 0 <= i < ps.len() {
        let n = match ps[i + 1] {
            ProgramElement::Terminal(Token::Identifier(n)) => n@,
            _ => Seq::empty(),
        };
        let vs2 = add_var(vs, n, sym_type_of(ps[i])->Ok_0, Scope::Arg)->Ok_0;
        if i + 2 < ps.len() {
            lemma_params_extend(vs2, ps, i + 3);
            assert(r.take(vs.len() as int) =~= r.take(vs2.len() as int).take(vs.len() as int));
        } else {
            assert(r.take(vs.len() as int) =~= vs);
        }
    } else {
        assert(r.take(vs.len() as int) =~= vs);
    }
}

/// The first parameter of a list is declared right after the arguments already there, as
/// an argument numbered on from them.
pub proof fn lemma_first_param(vs: Seq<VarView>, ps: Seq<ProgramElement>)
    requires
        params_from(vs, ps, 0) is Ok,
        ps.len() >= 2,
    ensures
        ({
            let r = params_from(vs, ps, 0)->Ok_0;
            &&& r.len() > vs.len()
            &&& r.take(vs.len() as int) == vs
            &&& r[vs.len() as int].scope == Scope::Arg
            &&& r[vs.len() as int].index == count_scope(vs, Scope::Arg)
            &&& ps[1] matches ProgramElement::Terminal(Token::Identifier(n)) && r[vs.len() as int].name == n@
        }),
{
    let n = match ps[1] {
        ProgramElement::Terminal(Token::Identifier(n)) => n@,
        _ => Seq::empty(),
    };
    let vs1 = add_var(vs, n, sym_type_of(ps[0])->Ok_0, Scope::Arg)->Ok_0;
    let r = params_from(vs, ps, 0)->Ok_0;
    assert(vs1.take(vs.len() as int) =~= vs);
    if 2 < ps.len() {
        lemma_params_extend(vs1, ps, 3);
        assert(r[vs.len() as int] == r.take(vs1.len() as int)[vs.len() as int]);
        assert(r.take(vs.len() as int) =~= r.take(vs1.len() as int).take(vs.len() as int));
    }
}

/// The first declared parameter of a `method` is argument 1, argument 0 being the implicit
/// `this`; the first parameter of a `function` or `constructor` is argument 0.
pub proof fn lemma_first_parameter_offset(cls: TableView, kind: Keyword, params: ProgramElement)
    requires
        param_list(initial_args(cls, kind), params) is Ok,
        kids(params).len() >= 2,
    ensures
        ({
            let vs = param_list(initial_args(cls, kind), params)->Ok_0;
            let k = initial_args(cls, kind).len() as int;
            &&& vs.len() > k
            &&& vs[k].scope == Scope::Arg
            &&& vs[k].index == if kind == Keyword::Method { 1nat } else { 0nat }
            &&& kids(params)[1] matches ProgramElement::Terminal(Token::Identifier(n)) && vs[k].name == n@
            &&& kind == Keyword::Method ==> vs[0] == receiver(cls)[0]
        }),
{
    let vs0 = initial_args(cls, kind);
    let ps = kids(params);
    lemma_first_param(vs0, ps);
    let r = params_from(vs0, ps, 0)->Ok_0;
    if kind == Keyword::Method {
        assert(receiver(cls).drop_last() =~= Seq::<VarView>::empty());
        assert(count_scope(Seq::<VarView>::empty(), Scope::Arg) == 0);
        assert(count_scope(vs0, Scope::Arg) == 1);
        assert(r[0] == r.take(vs0.len() as int)[0]);
    } else {
        assert(count_scope(vs0, Scope::Arg) == 0);
    }
}

/// The number of `if` statements (for `kind` `IfStatement`) or `while` statements (for
/// `WhileStatement`) in the statement `e`, nested ones included.
pub open spec fn count_stmt(e: ProgramElement, kind: NonTerminalType) -> nat
    decreases e, 1int,
{
    match e {
        ProgramElement::NonTerminal(nt) => {
            let cs = nt.children@;
            let own: nat = if nt.nt_type == kind { 1 } else { 0 };
            if nt.nt_type == NonTerminalType::IfStatement && cs.len() >= 6 {
                count_block(cs[5], kind) + (if cs.len() > 9 { count_block(cs[9], kind) } else { 0 }) + own
            } else if nt.nt_type == NonTerminalType::WhileStatement && cs.len() >= 6 {
                count_block(cs[5], kind) + own
            } else {
                0
            }
        },
        _ => 0,
    }
}

/// The same count for a statements node.
pub open spec fn count_block(e: ProgramElement, kind: NonTerminalType) -> nat
    decreases e, 0int,
{
    match e {
        ProgramElement::NonTerminal(b) => count_from(b.children@, 0, kind),
        _ => 0,
    }
}

/// The same count for the statements `cs` from position `i` on.
pub open spec fn count_from(cs: Seq<ProgramElement>, i: int, kind: NonTerminalType) -> nat
    decreases cs, cs.len() - i,
{
    if i < 0 || i >= cs.len() {
        0
    } else {
        count_stmt(cs[i], kind) + count_from(cs, i + 1, kind)
    }
}

/// The numbers that the code generator gives the statements of kind `kind` within `e`,
/// in the order in which it gives them, when the class's counter for that kind stands at
/// `base` before `e`: a statement's number comes after those of the statements nested in it.
pub open spec fn numbers_stmt(base: nat, e: ProgramElement, kind: NonTerminalType) -> Seq<nat>
    decreases e, 1int,
{
    match e {
        ProgramElement::NonTerminal(nt) => {
            let cs = nt.children@;
            if nt.nt_type == NonTerminalType::IfStatement && cs.len() >= 6 {
                let then_count = count_block(cs[5], kind);
                let else_count: nat = if cs.len() > 9 { count_block(cs[9], kind) } else { 0 };
                numbers_block(base, cs[5], kind)
                    + (if cs.len() > 9 { numbers_block(base + then_count, cs[9], kind) } else { Seq::empty() })
                    + (if kind == NonTerminalType::IfStatement { seq![base + then_count + else_count + 1] } else { Seq::empty() })
            } else if nt.nt_type == NonTerminalType::WhileStatement && cs.len() >= 6 {
                numbers_block(base, cs[5], kind)
                    + (if kind == NonTerminalType::WhileStatement { seq![base + count_block(cs[5], kind) + 1] } else { Seq::empty() })
            } else {
                Seq::empty()
            }
        },
        _ => Seq::empty(),
    }
}

pub open spec fn numbers_block(base: nat, e: ProgramElement, kind: NonTerminalType) -> Seq<nat>
    decreases e, 0int,
{
    match e {
        ProgramElement::NonTerminal(b) => numbers_from(base, b.children@, 0, kind),
        _ => Seq::empty(),
    }
}

pub open spec fn numbers_from(base: nat, cs: Seq<ProgramElement>, i: int, kind: NonTerminalType) -> Seq<nat>
    decreases cs, cs.len() - i,
{
    if i < 0 || i >= cs.len() {
        Seq::empty()
    } else {
        numbers_stmt(base, cs[i], kind) + numbers_from(base + count_stmt(cs[i], kind), cs, i + 1, kind)
    }
}

/// Strictly increasing, hence without repetition.
pub open spec fn increasing(s: Seq<nat>) -> bool {
    forall|i: int, j: int| 0 <= i < j < s.len() ==> s[i] < s[j]
}

/// All numbers of `s` lie in `lo + 1 ..= hi`.
pub open spec fn within(s: Seq<nat>, lo: nat, hi: nat) -> bool {
    forall|i: int| 0 <= i < s.len() ==> lo < #[trigger] s[i] <= hi
}

proof fn lemma_join(a: Seq<nat>, b: Seq<nat>, lo: nat, mid: nat, hi: nat)
    requires
        increasing(a),
        increasing(b),
        within(a, lo, mid),
        within(b, mid, hi),
        lo <= mid <= hi,
    ensures
        increasing(a + b),
        within(a + b, lo, hi),
{
    assert forall|i: int, j: int| 0 <= i < j < (a + b).len() implies (a + b)[i] < (a + b)[j] by {
        if j < a.len() {
        } else if i < a.len() {
            assert(a[i] <= mid);
            assert(mid < b[j - a.len()]);
        } else {
            assert(b[i - a.len()] < b[j - a.len()]);
        }
    }
    assert forall|i: int| 0 <= i < (a + b).len() implies lo < #[trigger] (a + b)[i] <= hi by {
        if i < a.len() {
            assert(lo < a[i] <= mid);
        } else {
            assert(mid < b[i - a.len()] <= hi);
        }
    }
}

proof fn lemma_numbers_stmt(base: nat, e: ProgramElement, kind: NonTerminalType)
    ensures
        increasing(numbers_stmt(base, e, kind)),
        within(numbers_stmt(base, e, kind), base, base + count_stmt(e, kind)),
    decreases e, 1int,
{
    if let ProgramElement::NonTerminal(nt) = e {
        let cs = nt.children@;
        if nt.nt_type == NonTerminalType::IfStatement && cs.len() >= 6 {
            let then_count = count_block(cs[5], kind);
            let else_count: nat = if cs.len() > 9 { count_block(cs[9], kind) } else { 0 };
            let own: nat = if nt.nt_type == kind { 1 } else { 0 };
            lemma_numbers_block(base, cs[5], kind);
            let a = numbers_block(base, cs[5], kind);
            let b = if cs.len() > 9 { numbers_block(base + then_count, cs[9], kind) } else { Seq::empty() };
            if cs.len() > 9 {
                lemma_numbers_block(base + then_count, cs[9], kind);
            }
            let c: Seq<nat> = if kind == NonTerminalType::IfStatement { seq![base + then_count + else_count + 1] } else { Seq::empty() };
            lemma_join(a, b, base, base + then_count, base + then_count + else_count);
            lemma_join(a + b, c, base, base + then_count + else_count, base + then_count + else_count + own);
        } else if nt.nt_type == NonTerminalType::WhileStatement && cs.len() >= 6 {
            let body_count = count_block(cs[5], kind);
            let own: nat = if nt.nt_type == kind { 1 } else { 0 };
            lemma_numbers_block(base, cs[5], kind);
            let a = numbers_block(base, cs[5], kind);
            let c: Seq<nat> = if kind == NonTerminalType::WhileStatement { seq![base + body_count + 1] } else { Seq::empty() };
            lemma_join(a, c, base, base + body_count, base + body_count + own);
        }
    }
}

proof fn lemma_numbers_block(base: nat, e: ProgramElement, kind: NonTerminalType)
    ensures
        increasing(numbers_block(base, e, kind)),
        within(numbers_block(base, e, kind), base, base + count_block(e, kind)),
    decreases e, 0int,
{
    if let ProgramElement::NonTerminal(b) = e {
        lemma_numbers_from(base, b.children@, 0, kind);
    }
}

proof fn lemma_numbers_from(base: nat, cs: Seq<ProgramElement>, i: int, kind: NonTerminalType)
    ensures
        increasing(numbers_from(base, cs, i, kind)),
        within(numbers_from(base, cs, i, kind), base, base + count_from(cs, i, kind)),
    decreases cs, cs.len() - i,
{
    if 0 <= i < cs.len() {
        let k = count_stmt(cs[i], kind);
        lemma_numbers_stmt(base, cs[i], kind);
        lemma_numbers_from(base + k, cs, i + 1, kind);
        lemma_join(numbers_stmt(base, cs[i], kind), numbers_from(base + k, cs, i + 1, kind), base, base + k,
            base + k + count_from(cs, i + 1, kind));
    }
}

/// `t` advanced by the `if` and `while` statements counted in `ifs` and `whiles`.
pub open spec fn advanced(t: TableView, ifs: nat, whiles: nat) -> TableView {
    TableView { ifs: t.ifs + ifs, whiles: t.whiles + whiles, ..t }
}

proof fn lemma_counters_if(cls: TableView, sub: TableView, e: ProgramElement)
    requires
        is_node(e, NonTerminalType::IfStatement),
        if_code(cls, sub, kids(e)) is Ok,
    ensures
        if_code(cls, sub, kids(e))->Ok_0.1 == advanced(cls, count_stmt(e, NonTerminalType::IfStatement),
            count_stmt(e, NonTerminalType::WhileStatement)),
        numbers_stmt(cls.ifs, e, NonTerminalType::IfStatement).last() == if_code(cls, sub, kids(e))->Ok_0.1.ifs,
    decreases e, 1int,
{
    let cs = kids(e);
    if let ProgramElement::NonTerminal(nt) = e {
        assert(cs == nt.children@);
        lemma_counters_block(cls, sub, cs[5]);
        let t1 = stmts_elem(cls, sub, cs[5])->Ok_0.1;
        if cs.len() > 9 {
            lemma_counters_block(t1, sub, cs[9]);
        }
    }
}

proof fn lemma_counters_while(cls: TableView, sub: TableView, e: ProgramElement)
    requires
        is_node(e, NonTerminalType::WhileStatement),
        while_code(cls, sub, kids(e)) is Ok,
    ensures
        while_code(cls, sub, kids(e))->Ok_0.1 == advanced(cls, count_stmt(e, NonTerminalType::IfStatement),
            count_stmt(e, NonTerminalType::WhileStatement)),
        numbers_stmt(cls.whiles, e, NonTerminalType::WhileStatement).last() == while_code(cls, sub, kids(e))->Ok_0.1.whiles,
    decreases e, 1int,
{
    let cs = kids(e);
    if let ProgramElement::NonTerminal(nt) = e {
        assert(cs == nt.children@);
        lemma_counters_block(cls, sub, cs[5]);
    }
}

proof fn lemma_counters_stmt(cls: TableView, sub: TableView, e: ProgramElement)
    requires
        stmt_code(cls, sub, e) is Ok,
    ensures
        stmt_code(cls, sub, e)->Ok_0.1 == advanced(cls, count_stmt(e, NonTerminalType::IfStatement),
            count_stmt(e, NonTerminalType::WhileStatement)),
        is_node(e, NonTerminalType::IfStatement) ==> numbers_stmt(cls.ifs, e, NonTerminalType::IfStatement).last()
            == stmt_code(cls, sub, e)->Ok_0.1.ifs,
        is_node(e, NonTerminalType::WhileStatement) ==> numbers_stmt(cls.whiles, e, NonTerminalType::WhileStatement).last()
            == stmt_code(cls, sub, e)->Ok_0.1.whiles,
    decreases e, 2int,
{
    if let ProgramElement::NonTerminal(nt) = e {
        if nt.nt_type == NonTerminalType::IfStatement {
            lemma_counters_if(cls, sub, e);
        } else if nt.nt_type == NonTerminalType::WhileStatement {
            lemma_counters_while(cls, sub, e);
        } else {
            assert(stmt_code(cls, sub, e)->Ok_0.1 == cls);
        }
    }
}

proof fn lemma_counters_block(cls: TableView, sub: TableView, e: ProgramElement)
    requires
        stmts_elem(cls, sub, e) is Ok,
    ensures
        stmts_elem(cls, sub, e)->Ok_0.1 == advanced(cls, count_block(e, NonTerminalType::IfStatement),
            count_block(e, NonTerminalType::WhileStatement)),
    decreases e, 0int,
{
    if let ProgramElement::NonTerminal(b) = e {
        lemma_counters_from(cls, sub, b.children@, 0);
    }
}

proof fn lemma_counters_from(cls: TableView, sub: TableView, cs: Seq<ProgramElement>, i: int)
    requires
        stmts_from(cls, sub, cs, i) is Ok,
    ensures
        stmts_from(cls, sub, cs, i)->Ok_0.1 == advanced(cls, count_from(cs, i, NonTerminalType::IfStatement),
            count_from(cs, i, NonTerminalType::WhileStatement)),
    decreases cs, cs.len() - i,
{
    if 0 <= i < cs.len() {
        lemma_counters_stmt(cls, sub, cs[i]);
        let t = stmt_code(cls, sub, cs[i])->Ok_0.1;
        lemma_counters_from(t, sub, cs, i + 1);
    }
}

/// Generated labels are unique within a class. Statements compiled while the class's `if`
/// counter stands at `k` give their `if` statements the numbers `numbers_from(k, ..)`
/// (each `if` statement's labels `IF_END<n>` and `ELSE_END<n>` carry its number `n`, the
/// counter just after it): these are strictly increasing, hence pairwise distinct, all above
/// `k` and at most the counter after the statements, which is `k` plus their count. The
/// counter is never reset: statements compiled later in the class, in the same subroutine
/// or another, get numbers above all of these. The same holds of `while` statements, their
/// labels `WHILE_START<n>` and `WHILE_END<n>` and their own counter.
pub proof fn lemma_labels_unique(cls: TableView, sub: TableView, cs: Seq<ProgramElement>)
    requires
        stmts_from(cls, sub, cs, 0) is Ok,
    ensures
        ({
            let t = stmts_from(cls, sub, cs, 0)->Ok_0.1;
            let ifs = numbers_from(cls.ifs, cs, 0, NonTerminalType::IfStatement);
            let whiles = numbers_from(cls.whiles, cs, 0, NonTerminalType::WhileStatement);
            &&& t.ifs == cls.ifs + count_from(cs, 0, NonTerminalType::IfStatement)
            &&& t.whiles == cls.whiles + count_from(cs, 0, NonTerminalType::WhileStatement)
            &&& t.vars == cls.vars
            &&& increasing(ifs) && within(ifs, cls.ifs, t.ifs)
            &&& increasing(whiles) && within(whiles, cls.whiles, t.whiles)
        }),
{
    lemma_counters_from(cls, sub, cs, 0);
    lemma_numbers_from(cls.ifs, cs, 0, NonTerminalType::IfStatement);
    lemma_numbers_from(cls.whiles, cs, 0, NonTerminalType::WhileStatement);
}

/// Compiling a subroutine only moves the class's label counters forward and leaves its
/// variables as they were; so the labels of different subroutines of a class never meet.
pub proof fn lemma_subroutine_counters(cls: TableView, cs: Seq<ProgramElement>)
    requires
        subroutine_code(cls, cs) is Ok,
    ensures
        ({
            let t = subroutine_code(cls, cs)->Ok_0.1;
            &&& t.ifs >= cls.ifs
            &&& t.whiles >= cls.whiles
            &&& t.vars == cls.vars
            &&& t.name == cls.name
        }),
{
    reveal(subroutine_code);
    reveal(body_code);
    let kind = match cs[0] {
        ProgramElement::Terminal(Token::Keyword(k)) => k,
        _ => Keyword::Class,
    };
    let name = match cs[2] {
        ProgramElement::Terminal(Token::Identifier(n)) => n@,
        _ => Seq::empty(),
    };
    let vs1 = param_list(initial_args(cls, kind), cs[4])->Ok_0;
    let bs = kids(cs[6]);
    let vs2 = locals_from(vs1, bs, 1, bs.len() - 2)->Ok_0;
    let sub = TableView { name, vars: vs2, ifs: 0, whiles: 0 };
    lemma_counters_block(cls, sub, bs[bs.len() - 2]);
}

} // verus!
