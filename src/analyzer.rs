use vstd::prelude::*;
use vstd::string::{StringExecFns, StrSliceExecFns};
use crate::lexer::{Keyword, Symbol, Token};
use crate::parser::{NonTerminalElement, NonTerminalType, ProgramElement, is_keyword, is_node, is_symbol, kids};
use crate::symbols::{CompileError, Scope, SymType, SymTypeView, SymbolTable, SymbolicVariable, TableView, VarView, add_var, count_scope, lookup};
use crate::laws::{lemma_first_param, appended, lemma_class_var_dec_appends, count_from, increasing, lemma_labels_unique, lemma_subroutine_counters, numbers_from, within};
use crate::text::{all_digit_chars, all_digits, decimal, push_decimal, push_numeral, value_of};

verus! {

broadcast use crate::text::lemma_concat_assoc;

/// Concatenates two pieces of generated code; the first error wins.
pub open spec fn cat(a: Result<Seq<char>, CompileError>, b: Result<Seq<char>, CompileError>) -> Result<Seq<char>, CompileError> {
    match a {
        Err(e) => Err(e),
        Ok(x) => match b {
            Err(e) => Err(e),
            Ok(y) => Ok(x + y),
        },
    }
}

/// Whether the generated text `r` is `s`.
pub open spec fn code_is(r: Result<String, CompileError>, s: Result<Seq<char>, CompileError>) -> bool {
    match r {
        Ok(a) => s == Ok::<Seq<char>, CompileError>(a@),
        Err(e) => s == Err::<Seq<char>, CompileError>(e),
    }
}

/// The memory segment of a storage class.
pub open spec fn segment(s: Scope) -> Seq<char> {
    match s {
        Scope::Field => "this"@,
        Scope::Static => "static"@,
        Scope::Var => "local"@,
        Scope::Arg => "argument"@,
    }
}

/// The operand that addresses a variable: its segment and its offset.
pub open spec fn slot(v: VarView) -> Seq<char> {
    segment(v.scope) + " "@ + decimal(v.index)
}

/// A name looked up in the subroutine's table first, then in the class's.
pub open spec fn resolve(cls: TableView, sub: TableView, name: Seq<char>) -> Result<VarView, CompileError> {
    match lookup(sub.vars, name) {
        Some(v) => Ok(v),
        None => match lookup(cls.vars, name) {
            Some(v) => Ok(v),
            None => Err(CompileError::UnresolvedSymbol),
        },
    }
}

pub open spec fn is_var(cls: TableView, sub: TableView, name: Seq<char>) -> bool {
    resolve(cls, sub, name) is Ok
}

/// `push` or `pop` of the variable `name`.
pub open spec fn access(op: Seq<char>, cls: TableView, sub: TableView, name: Seq<char>) -> Result<Seq<char>, CompileError> {
    match resolve(cls, sub, name) {
        Ok(v) => Ok(op + slot(v) + "\n"@),
        Err(e) => Err(e),
    }
}

/// The class of the object that the variable `name` holds.
pub open spec fn class_of(cls: TableView, sub: TableView, name: Seq<char>) -> Result<Seq<char>, CompileError> {
    match resolve(cls, sub, name) {
        Ok(v) => match v.ty {
            SymTypeView::Class(c) => Ok(c),
            _ => Err(CompileError::NotAnObject),
        },
        Err(e) => Err(e),
    }
}

pub open spec fn call_line(class: Seq<char>, sub: Seq<char>, n: nat) -> Seq<char> {
    "call "@ + class + "."@ + sub + " "@ + decimal(n) + "\n"@
}

/// The code that appends the characters `s` to a string object on the stack.
pub open spec fn chars_code(s: Seq<char>) -> Seq<char>
    decreases s.len(),
{
    if s.len() == 0 {
        Seq::empty()
    } else {
        chars_code(s.drop_last()) + "push constant "@ + decimal(s.last() as u32 as nat)
            + "\ncall String.appendChar 2\n"@
    }
}

/// The code that builds a string constant.
pub open spec fn string_code(s: Seq<char>) -> Seq<char> {
    "push constant "@ + decimal(s.len()) + "\ncall String.new 1\n"@ + chars_code(s)
}

/// The code of a binary operator.
pub open spec fn op_code(e: ProgramElement) -> Result<Seq<char>, CompileError> {
    match e {
        ProgramElement::Terminal(Token::Symbol(s)) => match s {
            Symbol::Add => Ok("add\n"@),
            Symbol::Minus => Ok("sub\n"@),
            Symbol::Mult => Ok("call Math.multiply 2\n"@),
            Symbol::Division => Ok("call Math.divide 2\n"@),
            Symbol::And => Ok("and\n"@),
            Symbol::Or => Ok("or\n"@),
            Symbol::LessThan => Ok("lt\n"@),
            Symbol::GreaterThan => Ok("gt\n"@),
            Symbol::Equal => Ok("eq\n"@),
            _ => Err(CompileError::MalformedTree),
        },
        _ => Err(CompileError::MalformedTree),
    }
}

/// The number of expressions in the children of an expression list.
pub open spec fn list_count(l: Seq<ProgramElement>) -> nat {
    ((l.len() + 1) / 2) as nat
}

/// The code of an expression node.
pub open spec fn expr_elem(cls: TableView, sub: TableView, e: ProgramElement) -> Result<Seq<char>, CompileError>
    decreases e, 0int,
{
    match e {
        ProgramElement::NonTerminal(nt) => if nt.nt_type == NonTerminalType::Expression {
            expr_code(cls, sub, nt.children@)
        } else {
            Err(CompileError::MalformedTree)
        },
        _ => Err(CompileError::MalformedTree),
    }
}

/// The code of a term node.
pub open spec fn term_elem(cls: TableView, sub: TableView, e: ProgramElement) -> Result<Seq<char>, CompileError>
    decreases e, 0int,
{
    match e {
        ProgramElement::NonTerminal(nt) => if nt.nt_type == NonTerminalType::Term {
            term_code(cls, sub, nt.children@)
        } else {
            Err(CompileError::MalformedTree)
        },
        _ => Err(CompileError::MalformedTree),
    }
}

/// `term (op term)*`: each term's code, then the operator's after the second operand;
/// all operators bind alike, left to right.
pub open spec fn expr_code(cls: TableView, sub: TableView, cs: Seq<ProgramElement>) -> Result<Seq<char>, CompileError>
    decreases cs, cs.len() + 1,
{
    if cs.len() == 0 {
        Err(CompileError::MalformedTree)
    } else {
        cat(term_elem(cls, sub, cs[0]), expr_from(cls, sub, cs, 1))
    }
}

/// The code of the `op term` pairs of an expression from child `i` on.
pub open spec fn expr_from(cls: TableView, sub: TableView, cs: Seq<ProgramElement>, i: int) -> Result<Seq<char>, CompileError>
    decreases cs, cs.len() - i,
{
    if i < 1 || i >= cs.len() {
        Ok(Seq::empty())
    } else if i + 1 >= cs.len() {
        Err(CompileError::MalformedTree)
    } else {
        cat(cat(term_elem(cls, sub, cs[i + 1]), op_code(cs[i])), expr_from(cls, sub, cs, i + 2))
    }
}

/// The code of the expressions of an expression list, in order.
pub open spec fn list_code(cls: TableView, sub: TableView, l: Seq<ProgramElement>) -> Result<Seq<char>, CompileError>
    decreases l, l.len() + 1,
{
    if l.len() == 0 {
        Ok(Seq::empty())
    } else {
        cat(expr_elem(cls, sub, l[0]), list_from(cls, sub, l, 1))
    }
}

pub open spec fn list_from(cls: TableView, sub: TableView, l: Seq<ProgramElement>, i: int) -> Result<Seq<char>, CompileError>
    decreases l, l.len() - i,
{
    if i < 1 || i >= l.len() {
        Ok(Seq::empty())
    } else if i + 1 >= l.len() || !is_symbol(l[i], Symbol::Comma) {
        Err(CompileError::MalformedTree)
    } else {
        cat(expr_elem(cls, sub, l[i + 1]), list_from(cls, sub, l, i + 2))
    }
}

/// A call whose first name is child `k` of `cs`: `f(args)` calls a method of this class
/// on `this`; `v.f(args)` calls a method on the object in variable `v`; `C.f(args)`, where
/// `C` is no variable, calls a function or constructor of class `C`.
pub open spec fn call_code(cls: TableView, sub: TableView, cs: Seq<ProgramElement>, k: int) -> Result<Seq<char>, CompileError>
    decreases cs, 0int,
{
    if !(0 <= k && k + 2 < cs.len()) {
        Err(CompileError::MalformedTree)
    } else {
        match cs[k] {
            ProgramElement::Terminal(Token::Identifier(name)) => {
                if is_symbol(cs[k + 1], Symbol::LParen) && is_node(cs[k + 2], NonTerminalType::ExpressionList) {
                    let l = kids(cs[k + 2]);
                    match list_code(cls, sub, l) {
                        Ok(lc) => Ok("push pointer 0\n"@ + lc + call_line(cls.name, name@, list_count(l) + 1)),
                        Err(e) => Err(e),
                    }
                } else if is_symbol(cs[k + 1], Symbol::Dot) && k + 4 < cs.len() && is_node(cs[k + 4], NonTerminalType::ExpressionList) {
                    match cs[k + 2] {
                        ProgramElement::Terminal(Token::Identifier(sub_name)) => {
                            let l = kids(cs[k + 4]);
                            match list_code(cls, sub, l) {
                                Ok(lc) => if is_var(cls, sub, name@) {
                                    match class_of(cls, sub, name@) {
                                        Ok(c) => Ok("push "@ + slot(resolve(cls, sub, name@)->Ok_0) + "\n"@ + lc
                                            + call_line(c, sub_name@, list_count(l) + 1)),
                                        Err(e) => Err(e),
                                    }
                                } else {
                                    Ok(lc + call_line(name@, sub_name@, list_count(l)))
                                },
                                Err(e) => Err(e),
                            }
                        },
                        _ => Err(CompileError::MalformedTree),
                    }
                } else {
                    Err(CompileError::MalformedTree)
                }
            },
            _ => Err(CompileError::MalformedTree),
        }
    }
}

/// The code of the children of a term.
pub open spec fn term_code(cls: TableView, sub: TableView, cs: Seq<ProgramElement>) -> Result<Seq<char>, CompileError>
    decreases cs, 1int,
{
    if cs.len() == 0 {
        Err(CompileError::MalformedTree)
    } else {
        match cs[0] {
            ProgramElement::Terminal(t) => match t {
                Token::IntConst(s) => if s@.len() >= 1 && all_digits(s@) {
                    Ok("push constant "@ + decimal(value_of(s@)) + "\n"@)
                } else {
                    Err(CompileError::MalformedTree)
                },
                Token::StringConst(s) => Ok(string_code(s@)),
                Token::Keyword(Keyword::Null) | Token::Keyword(Keyword::False) => Ok("push constant 0\n"@),
                Token::Keyword(Keyword::True) => Ok("push constant 1\nneg\n"@),
                Token::Keyword(Keyword::This) => Ok("push pointer 0\n"@),
                Token::Symbol(Symbol::LParen) => if cs.len() >= 2 {
                    expr_elem(cls, sub, cs[1])
                } else {
                    Err(CompileError::MalformedTree)
                },
                Token::Symbol(Symbol::Minus) => if cs.len() >= 2 {
                    cat(term_elem(cls, sub, cs[1]), Ok("neg\n"@))
                } else {
                    Err(CompileError::MalformedTree)
                },
                Token::Symbol(Symbol::Not) => if cs.len() >= 2 {
                    cat(term_elem(cls, sub, cs[1]), Ok("not\n"@))
                } else {
                    Err(CompileError::MalformedTree)
                },
                Token::Identifier(name) => if cs.len() == 1 {
                    access("push "@, cls, sub, name@)
                } else if is_symbol(cs[1], Symbol::LBrack) {
                    if cs.len() >= 3 {
                        cat(cat(expr_elem(cls, sub, cs[2]), access("push "@, cls, sub, name@)),
                            Ok("add\npop pointer 1\npush that 0\n"@))
                    } else {
                        Err(CompileError::MalformedTree)
                    }
                } else {
                    call_code(cls, sub, cs, 0)
                },
                _ => Err(CompileError::MalformedTree),
            },
            _ => Err(CompileError::MalformedTree),
        }
    }
}


/// Generated code together with the class table after it (its label counters advanced).
pub type Emitted = Result<(Seq<char>, TableView), CompileError>;

/// `r` with `p` in front of its code.
pub open spec fn after(p: Seq<char>, r: Emitted) -> Emitted {
    match r {
        Ok((c, t)) => Ok((p + c, t)),
        Err(e) => Err(e),
    }
}

/// `letStatement`: a store into a variable, or into an array element through `that`.
pub open spec fn let_code(cls: TableView, sub: TableView, cs: Seq<ProgramElement>) -> Result<Seq<char>, CompileError> {
    if cs.len() < 4 {
        Err(CompileError::MalformedTree)
    } else {
        match cs[1] {
            ProgramElement::Terminal(Token::Identifier(name)) => if is_symbol(cs[2], Symbol::LBrack) {
                if cs.len() < 7 {
                    Err(CompileError::MalformedTree)
                } else {
                    cat(cat(cat(cat(expr_elem(cls, sub, cs[3]), access("push "@, cls, sub, name@)), Ok("add\n"@)),
                        expr_elem(cls, sub, cs[6])), Ok("pop temp 0\npop pointer 1\npush temp 0\npop that 0\n"@))
                }
            } else if is_symbol(cs[2], Symbol::Equal) {
                cat(expr_elem(cls, sub, cs[3]), access("pop "@, cls, sub, name@))
            } else {
                Err(CompileError::MalformedTree)
            },
            _ => Err(CompileError::MalformedTree),
        }
    }
}

/// `returnStatement`: a bare `return` returns 0.
pub open spec fn return_code(cls: TableView, sub: TableView, cs: Seq<ProgramElement>) -> Result<Seq<char>, CompileError> {
    if cs.len() < 2 {
        Err(CompileError::MalformedTree)
    } else if is_symbol(cs[1], Symbol::Semicolon) {
        Ok("push constant 0\nreturn\n"@)
    } else {
        cat(expr_elem(cls, sub, cs[1]), Ok("return\n"@))
    }
}

/// `doStatement`: the call, with its result discarded.
pub open spec fn do_code(cls: TableView, sub: TableView, cs: Seq<ProgramElement>) -> Result<Seq<char>, CompileError> {
    cat(call_code(cls, sub, cs, 1), Ok("pop temp 0\n"@))
}

pub open spec fn label_line(op: Seq<char>, name: Seq<char>, n: nat) -> Seq<char> {
    op + name + decimal(n) + "\n"@
}

/// The code of a while loop around `cond` and the result of its body, numbered by the
/// class's while counter after the body.
pub open spec fn while_finish(cond: Seq<char>, r: Emitted) -> Emitted {
    match r {
        Err(e) => Err(e),
        Ok((body, t)) => if t.whiles >= usize::MAX {
            Err(CompileError::CounterOverflow)
        } else {
            let n = t.whiles + 1;
            Ok((label_line("label "@, "WHILE_START"@, n) + cond + "not\n"@
                + label_line("if-goto "@, "WHILE_END"@, n) + body
                + label_line("goto "@, "WHILE_START"@, n) + label_line("label "@, "WHILE_END"@, n),
                TableView { whiles: n, ..t }))
        },
    }
}

/// `whileStatement`.
pub open spec fn while_code(cls: TableView, sub: TableView, cs: Seq<ProgramElement>) -> Emitted
    decreases cs, 0int,
{
    if cs.len() < 6 {
        Err(CompileError::MalformedTree)
    } else {
        match expr_elem(cls, sub, cs[2]) {
            Err(e) => Err(e),
            Ok(cond) => while_finish(cond, stmts_elem(cls, sub, cs[5])),
        }
    }
}

/// The code of a conditional around `cond` and its then-branch, given the result of its
/// else-branch; numbered by the class's if counter after both branches.
pub open spec fn if_finish(cond: Seq<char>, then_code: Seq<char>, r: Emitted) -> Emitted {
    match r {
        Err(e) => Err(e),
        Ok((else_code, t)) => if t.ifs >= usize::MAX {
            Err(CompileError::CounterOverflow)
        } else {
            let n = t.ifs + 1;
            Ok((cond + "not\n"@ + label_line("if-goto "@, "IF_END"@, n) + then_code
                + label_line("goto "@, "ELSE_END"@, n) + label_line("label "@, "IF_END"@, n)
                + else_code + label_line("label "@, "ELSE_END"@, n),
                TableView { ifs: n, ..t }))
        },
    }
}

/// `ifStatement`.
pub open spec fn if_code(cls: TableView, sub: TableView, cs: Seq<ProgramElement>) -> Emitted
    decreases cs, 0int,
{
    if cs.len() < 6 {
        Err(CompileError::MalformedTree)
    } else {
        match expr_elem(cls, sub, cs[2]) {
            Err(e) => Err(e),
            Ok(cond) => match stmts_elem(cls, sub, cs[5]) {
                Err(e) => Err(e),
                Ok((then_code, t1)) => if_finish(cond, then_code,
                    if cs.len() > 9 { stmts_elem(t1, sub, cs[9]) } else { Ok((Seq::empty(), t1)) }),
            },
        }
    }
}

/// The code of one statement node.
pub open spec fn stmt_code(cls: TableView, sub: TableView, e: ProgramElement) -> Emitted
    decreases e, 0int,
{
    match e {
        ProgramElement::NonTerminal(nt) => match nt.nt_type {
            NonTerminalType::LetStatement => match let_code(cls, sub, nt.children@) {
                Ok(c) => Ok((c, cls)),
                Err(e) => Err(e),
            },
            NonTerminalType::DoStatement => match do_code(cls, sub, nt.children@) {
                Ok(c) => Ok((c, cls)),
                Err(e) => Err(e),
            },
            NonTerminalType::ReturnStatement => match return_code(cls, sub, nt.children@) {
                Ok(c) => Ok((c, cls)),
                Err(e) => Err(e),
            },
            NonTerminalType::IfStatement => if_code(cls, sub, nt.children@),
            NonTerminalType::WhileStatement => while_code(cls, sub, nt.children@),
            _ => Err(CompileError::MalformedTree),
        },
        _ => Err(CompileError::MalformedTree),
    }
}

/// The code of a statements node.
pub open spec fn stmts_elem(cls: TableView, sub: TableView, e: ProgramElement) -> Emitted
    decreases e, 0int,
{
    match e {
        ProgramElement::NonTerminal(nt) => if nt.nt_type == NonTerminalType::Statements {
            stmts_from(cls, sub, nt.children@, 0)
        } else {
            Err(CompileError::MalformedTree)
        },
        _ => Err(CompileError::MalformedTree),
    }
}

/// The code of the statements `cs` from position `i` on, in order.
pub open spec fn stmts_from(cls: TableView, sub: TableView, cs: Seq<ProgramElement>, i: int) -> Emitted
    decreases cs, cs.len() - i,
{
    if i < 0 || i >= cs.len() {
        Ok((Seq::empty(), cls))
    } else {
        match stmt_code(cls, sub, cs[i]) {
            Err(e) => Err(e),
            Ok((c, t)) => after(c, stmts_from(t, sub, cs, i + 1)),
        }
    }
}

/// The type that a type token declares.
pub open spec fn sym_type_of(e: ProgramElement) -> Result<SymTypeView, CompileError> {
    match e {
        ProgramElement::Terminal(Token::Keyword(Keyword::Int)) => Ok(SymTypeView::Int),
        ProgramElement::Terminal(Token::Keyword(Keyword::Boolean)) => Ok(SymTypeView::Boolean),
        ProgramElement::Terminal(Token::Keyword(Keyword::Char)) => Ok(SymTypeView::Char),
        ProgramElement::Terminal(Token::Identifier(s)) => Ok(SymTypeView::Class(s@)),
        _ => Err(CompileError::MalformedTree),
    }
}

/// Declares, in order, the names listed from child `i` of a declaration, up to its `;`.
pub open spec fn names_from(vs: Seq<VarView>, cs: Seq<ProgramElement>, i: int, ty: SymTypeView, s: Scope) -> Result<Seq<VarView>, CompileError>
    decreases cs.len() - i,
{
    if i < 0 || i >= cs.len() {
        Err(CompileError::MalformedTree)
    } else {
        match cs[i] {
            ProgramElement::Terminal(Token::Identifier(n)) => match add_var(vs, n@, ty, s) {
                Ok(vs2) => names_from(vs2, cs, i + 1, ty, s),
                Err(e) => Err(e),
            },
            ProgramElement::Terminal(Token::Symbol(Symbol::Semicolon)) => Ok(vs),
            ProgramElement::Terminal(Token::Symbol(Symbol::Comma)) => names_from(vs, cs, i + 1, ty, s),
            _ => Err(CompileError::MalformedTree),
        }
    }
}

/// A declaration `keyword type name (',' name)* ';'` whose keyword gives storage class `s`.
pub open spec fn declaration(vs: Seq<VarView>, cs: Seq<ProgramElement>, s: Scope) -> Result<Seq<VarView>, CompileError> {
    if cs.len() < 2 {
        Err(CompileError::MalformedTree)
    } else {
        match sym_type_of(cs[1]) {
            Ok(ty) => names_from(vs, cs, 2, ty, s),
            Err(e) => Err(e),
        }
    }
}

/// The storage class that a class variable declaration's keyword gives.
pub open spec fn class_scope(e: ProgramElement) -> Option<Scope> {
    match e {
        ProgramElement::Terminal(Token::Keyword(Keyword::Field)) => Some(Scope::Field),
        ProgramElement::Terminal(Token::Keyword(Keyword::Static)) => Some(Scope::Static),
        _ => None,
    }
}

/// `classVarDec`: fields or statics.
#[verifier::opaque]
pub open spec fn class_var_dec(vs: Seq<VarView>, cs: Seq<ProgramElement>) -> Result<Seq<VarView>, CompileError> {
    if cs.len() == 0 {
        Err(CompileError::MalformedTree)
    } else {
        match class_scope(cs[0]) {
            Some(s) => declaration(vs, cs, s),
            None => Err(CompileError::MalformedTree),
        }
    }
}

/// `varDec`: locals.
#[verifier::opaque]
pub open spec fn var_dec(vs: Seq<VarView>, cs: Seq<ProgramElement>) -> Result<Seq<VarView>, CompileError> {
    if cs.len() == 0 || !(cs[0] matches ProgramElement::Terminal(Token::Keyword(Keyword::Var))) {
        Err(CompileError::MalformedTree)
    } else {
        declaration(vs, cs, Scope::Var)
    }
}

/// The parameters listed from child `i` of a parameter list, declared in order.
pub open spec fn params_from(vs: Seq<VarView>, ps: Seq<ProgramElement>, i: int) -> Result<Seq<VarView>, CompileError>
    decreases ps.len() - i,
{
    if i < 0 || i >= ps.len() {
        Ok(vs)
    } else if i + 1 >= ps.len() {
        Err(CompileError::MalformedTree)
    } else {
        match sym_type_of(ps[i]) {
            Err(e) => Err(e),
            Ok(ty) => match ps[i + 1] {
                ProgramElement::Terminal(Token::Identifier(n)) => match add_var(vs, n@, ty, Scope::Arg) {
                    Err(e) => Err(e),
                    Ok(vs2) => if i + 2 >= ps.len() {
                        Ok(vs2)
                    } else if is_symbol(ps[i + 2], Symbol::Comma) {
                        params_from(vs2, ps, i + 3)
                    } else {
                        Err(CompileError::MalformedTree)
                    },
                },
                _ => Err(CompileError::MalformedTree),
            },
        }
    }
}

/// A parameter list node.
pub open spec fn param_list(vs: Seq<VarView>, e: ProgramElement) -> Result<Seq<VarView>, CompileError> {
    if is_node(e, NonTerminalType::ParamList) {
        params_from(vs, kids(e), 0)
    } else {
        Err(CompileError::MalformedTree)
    }
}

/// The local declarations among children `i` to `end` (exclusive) of a subroutine body.
pub open spec fn locals_from(vs: Seq<VarView>, bs: Seq<ProgramElement>, i: int, end: int) -> Result<Seq<VarView>, CompileError>
    decreases end - i,
{
    if i < 0 || i >= end || end > bs.len() {
        Ok(vs)
    } else if is_node(bs[i], NonTerminalType::VarDec) {
        match var_dec(vs, kids(bs[i])) {
            Ok(vs2) => locals_from(vs2, bs, i + 1, end),
            Err(e) => Err(e),
        }
    } else {
        Err(CompileError::MalformedTree)
    }
}

/// What a subroutine runs before its statements: a method binds `this` to its receiver, a
/// constructor to a new object with room for the class's fields.
#[verifier::opaque]
pub open spec fn prologue(kind: Keyword, cls: TableView) -> Seq<char> {
    if kind == Keyword::Method {
        "push argument 0\npop pointer 0\n"@
    } else if kind == Keyword::Constructor {
        "push constant "@ + decimal(count_scope(cls.vars, Scope::Field)) + "\ncall Memory.alloc 1\npop pointer 0\n"@
    } else {
        Seq::empty()
    }
}

/// The local declarations among children 1 to `end` (exclusive) of a subroutine body.
fn compile_locals(subroutine_table: &mut SymbolTable, body: &Vec<ProgramElement>, end: usize) -> (r: Result<(), CompileError>)
    requires
        old(subroutine_table).wf(),
        end <= body@.len(),
    ensures
        final(subroutine_table).wf(),
        declared(r, old(subroutine_table)@, final(subroutine_table)@, locals_from(old(subroutine_table)@.vars, body@, 1, end as int)),
{
    let ghost target = locals_from(subroutine_table@.vars, body@, 1, end as int);
    let mut i: usize = 1;
    while i < end
        invariant
            1 <= i,
            end <= body@.len(),
            subroutine_table.wf(),
            subroutine_table@ == with_vars(old(subroutine_table)@, subroutine_table@.vars),
            target == locals_from(old(subroutine_table)@.vars, body@, 1, end as int),
            target == locals_from(subroutine_table@.vars, body@, i as int, end as int),
        decreases end - i,
    {
        match &body[i] {
            ProgramElement::NonTerminal(nt) => if let NonTerminalType::VarDec = nt.nt_type {
                compile_subroutine_var_dec(subroutine_table, &nt.children)?;
            } else {
                return Err(CompileError::MalformedTree);
            },
            _ => {
                return Err(CompileError::MalformedTree);
            },
        }
        i = i + 1;
    }
    Ok(())
}

/// The code of a subroutine body, given the subroutine's kind, its name and its
/// parameters: the function header with the count of locals, the prologue, the statements.
#[verifier::opaque]
pub open spec fn body_code(cls: TableView, kind: Keyword, name: Seq<char>, vs: Seq<VarView>, e: ProgramElement) -> Emitted {
    let bs = kids(e);
    if !is_node(e, NonTerminalType::SubroutineBody) || bs.len() < 3 {
        Err(CompileError::MalformedTree)
    } else {
        match locals_from(vs, bs, 1, bs.len() - 2) {
            Err(e) => Err(e),
            Ok(vs2) => {
                let sub = TableView { name, vars: vs2, ifs: 0, whiles: 0 };
                after("function "@ + cls.name + "."@ + name + " "@ + decimal(count_scope(vs2, Scope::Var)) + "\n"@
                    + prologue(kind, cls), stmts_elem(cls, sub, bs[bs.len() - 2]))
            },
        }
    }
}

/// The implicit first argument of a method.
pub open spec fn receiver(cls: TableView) -> Seq<VarView> {
    seq![VarView { name: "this"@, ty: SymTypeView::Class(cls.name), scope: Scope::Arg, index: 0 }]
}

/// The arguments of a subroutine before its parameters: a method's receiver, or none.
pub open spec fn initial_args(cls: TableView, kind: Keyword) -> Seq<VarView> {
    if kind == Keyword::Method {
        receiver(cls)
    } else {
        Seq::empty()
    }
}

/// `subroutineDec`.
#[verifier::opaque]
pub open spec fn subroutine_code(cls: TableView, cs: Seq<ProgramElement>) -> Emitted {
    if cs.len() < 7 {
        Err(CompileError::MalformedTree)
    } else {
        match (cs[0], cs[2]) {
            (ProgramElement::Terminal(Token::Keyword(kind)), ProgramElement::Terminal(Token::Identifier(name))) =>
                if kind == Keyword::Method || kind == Keyword::Constructor || kind == Keyword::Function {
                    match param_list(initial_args(cls, kind), cs[4]) {
                        Err(e) => Err(e),
                        Ok(vs1) => body_code(cls, kind, name@, vs1, cs[6]),
                    }
                } else {
                    Err(CompileError::MalformedTree)
                },
            _ => Err(CompileError::MalformedTree),
        }
    }
}

/// The class's children from `i` on: its name, its variable declarations and its
/// subroutines, whose code follows in order.
pub open spec fn class_from(t: TableView, cs: Seq<ProgramElement>, i: int) -> Emitted
    decreases cs.len() - i,
{
    if i < 0 || i >= cs.len() {
        Ok((Seq::empty(), t))
    } else {
        match cs[i] {
            ProgramElement::Terminal(Token::Identifier(n)) => class_from(TableView { name: n@, ..t }, cs, i + 1),
            ProgramElement::NonTerminal(nt) => if nt.nt_type == NonTerminalType::ClassVarDec {
                match class_var_dec(t.vars, nt.children@) {
                    Ok(vs) => class_from(TableView { vars: vs, ..t }, cs, i + 1),
                    Err(e) => Err(e),
                }
            } else if nt.nt_type == NonTerminalType::SubroutineDec {
                match subroutine_code(t, nt.children@) {
                    Ok((c, t2)) => after(c, class_from(t2, cs, i + 1)),
                    Err(e) => Err(e),
                }
            } else {
                class_from(t, cs, i + 1)
            },
            _ => class_from(t, cs, i + 1),
        }
    }
}

pub open spec fn empty_table() -> TableView {
    TableView { name: Seq::empty(), vars: Seq::empty(), ifs: 0, whiles: 0 }
}

/// The bytecode of a class tree.
pub open spec fn class_code(tree: NonTerminalElement) -> Result<Seq<char>, CompileError> {
    if tree.nt_type != NonTerminalType::Class {
        Err(CompileError::MalformedTree)
    } else {
        match class_from(empty_table(), tree.children@, 0) {
            Ok((c, _)) => Ok(c),
            Err(e) => Err(e),
        }
    }
}
} // verus!

verus! {


fn segment_text(s: Scope) -> (r: &'static str)
    ensures
        r@ == segment(s),
{
    match s {
        Scope::Field => "this",
        Scope::Static => "static",
        Scope::Var => "local",
        Scope::Arg => "argument",
    }
}

/// Appends the operand that addresses `v`.
fn push_slot(out: &mut String, v: &SymbolicVariable)
    ensures
        final(out)@ == old(out)@ + slot(v@),
{
    out.append(segment_text(v.scope));
    out.append(" ");
    push_decimal(out, v.index);
}

/// Appends `call class.sub n`.
fn push_call(out: &mut String, class: &String, sub: &String, n: usize)
    ensures
        final(out)@ == old(out)@ + call_line(class@, sub@, n as nat),
{
    out.append("call ");
    out.append(class.as_str());
    out.append(".");
    out.append(sub.as_str());
    out.append(" ");
    push_decimal(out, n);
    out.append("\n");
}

/// The variable `name`: a local or argument of the subroutine, else a field or static of
/// the class.
fn resolve_symbol_variable<'a>(name: &String, class_table: &'a SymbolTable, subroutine_table: &'a SymbolTable) -> (r: Result<&'a SymbolicVariable, CompileError>)
    ensures
        match resolve(class_table@, subroutine_table@, name@) {
            Ok(v) => r is Ok && r->Ok_0@ == v,
            Err(e) => r == Err::<&SymbolicVariable, CompileError>(e),
        },
{
    match subroutine_table.get(name) {
        Some(v) => Ok(v),
        None => match class_table.get(name) {
            Some(v) => Ok(v),
            None => Err(CompileError::UnresolvedSymbol),
        },
    }
}

/// `push` or `pop` (given as `op`, with its trailing space) of the variable `name`.
fn compile_access(op: &str, name: &String, class_table: &SymbolTable, subroutine_table: &SymbolTable) -> (r: Result<String, CompileError>)
    ensures
        code_is(r, access(op@, class_table@, subroutine_table@, name@)),
{
    let v = resolve_symbol_variable(name, class_table, subroutine_table)?;
    let mut out = String::from_str(op);
    push_slot(&mut out, v);
    out.append("\n");
    Ok(out)
}

/// The class of the object held by the variable `name`.
fn resolve_class_name(name: &String, class_table: &SymbolTable, subroutine_table: &SymbolTable) -> (r: Result<String, CompileError>)
    ensures
        code_is(r, class_of(class_table@, subroutine_table@, name@)),
{
    let v = resolve_symbol_variable(name, class_table, subroutine_table)?;
    match &v.sym_type {
        SymType::Class(c) => Ok(c.clone()),
        _ => Err(CompileError::NotAnObject),
    }
}

/// The code of a binary operator.
fn compile_op(op: &ProgramElement) -> (r: Result<&'static str, CompileError>)
    ensures
        match op_code(*op) {
            Ok(s) => r is Ok && r->Ok_0@ == s,
            Err(e) => r == Err::<&str, CompileError>(e),
        },
{
    match op {
        ProgramElement::Terminal(Token::Symbol(s)) => match s {
            Symbol::Add => Ok("add\n"),
            Symbol::Minus => Ok("sub\n"),
            Symbol::Mult => Ok("call Math.multiply 2\n"),
            Symbol::Division => Ok("call Math.divide 2\n"),
            Symbol::And => Ok("and\n"),
            Symbol::Or => Ok("or\n"),
            Symbol::LessThan => Ok("lt\n"),
            Symbol::GreaterThan => Ok("gt\n"),
            Symbol::Equal => Ok("eq\n"),
            _ => Err(CompileError::MalformedTree),
        },
        _ => Err(CompileError::MalformedTree),
    }
}

/// Appends the code that builds the string constant `s`.
fn compile_string(out: &mut String, s: &String)
    ensures
        final(out)@ == old(out)@ + string_code(s@),
{
    let n = s.as_str().unicode_len();
    out.append("push constant ");
    push_decimal(out, n);
    out.append("\ncall String.new 1\n");
    let ghost head = out@;
    let mut i: usize = 0;
    assert(s@.take(0) =~= Seq::<char>::empty());
    while i < n
        invariant
            n == s@.len(),
            i <= n,
            out@ == head + chars_code(s@.take(i as int)),
        decreases n - i,
    {
        let c = s.as_str().get_char(i);
        out.append("push constant ");
        push_decimal(out, c as u32 as usize);
        out.append("\ncall String.appendChar 2\n");
        assert(s@.take(i + 1).drop_last() =~= s@.take(i as int));
        i = i + 1;
    }
    assert(s@.take(n as int) =~= s@);
}

fn is_symbol_elem(e: &ProgramElement, s: Symbol) -> (r: bool)
    ensures
        r == is_symbol(*e, s),
{
    match e {
        ProgramElement::Terminal(Token::Symbol(x)) => *x == s,
        _ => false,
    }
}

/// The code of an expression node.
fn compile_expr_elem(class_table: &SymbolTable, subroutine_table: &SymbolTable, e: &ProgramElement) -> (r: Result<String, CompileError>)
    ensures
        code_is(r, expr_elem(class_table@, subroutine_table@, *e)),
    decreases *e, 0int,
{
    match e {
        ProgramElement::NonTerminal(nt) => if let NonTerminalType::Expression = nt.nt_type {
            compile_expression(class_table, subroutine_table, &nt.children)
        } else {
            Err(CompileError::MalformedTree)
        },
        _ => Err(CompileError::MalformedTree),
    }
}

/// The code of a term node.
fn compile_term_elem(class_table: &SymbolTable, subroutine_table: &SymbolTable, e: &ProgramElement) -> (r: Result<String, CompileError>)
    ensures
        code_is(r, term_elem(class_table@, subroutine_table@, *e)),
    decreases *e, 0int,
{
    match e {
        ProgramElement::NonTerminal(nt) => if let NonTerminalType::Term = nt.nt_type {
            compile_term(class_table, subroutine_table, &nt.children)
        } else {
            Err(CompileError::MalformedTree)
        },
        _ => Err(CompileError::MalformedTree),
    }
}

/// The code of the children of an expression.
fn compile_expression(class_table: &SymbolTable, subroutine_table: &SymbolTable, body: &Vec<ProgramElement>) -> (r: Result<String, CompileError>)
    ensures
        code_is(r, expr_code(class_table@, subroutine_table@, body@)),
    decreases body@, body@.len() + 1,
{
    let ghost cls = class_table@;
    let ghost sub = subroutine_table@;
    if body.len() == 0 {
        return Err(CompileError::MalformedTree);
    }
    let mut bytecode = compile_term_elem(class_table, subroutine_table, &body[0])?;
    let mut i: usize = 1;
    while i < body.len()
        invariant
            1 <= i,
            cls == class_table@,
            sub == subroutine_table@,
            expr_code(cls, sub, body@) == cat(Ok(bytecode@), expr_from(cls, sub, body@, i as int)),
        decreases body@.len() - i,
    {
        if i + 1 >= body.len() {
            return Err(CompileError::MalformedTree);
        }
        let term = compile_term_elem(class_table, subroutine_table, &body[i + 1])?;
        let op = compile_op(&body[i])?;
        bytecode.append(term.as_str());
        bytecode.append(op);
        i = i + 2;
    }
    Ok(bytecode)
}

/// The code of the children of an expression list.
fn compile_expression_list(class_table: &SymbolTable, subroutine_table: &SymbolTable, body: &Vec<ProgramElement>) -> (r: Result<String, CompileError>)
    ensures
        code_is(r, list_code(class_table@, subroutine_table@, body@)),
    decreases body@, body@.len() + 1,
{
    let ghost cls = class_table@;
    let ghost sub = subroutine_table@;
    if body.len() == 0 {
        return Ok(String::new());
    }
    let mut bytecode = compile_expr_elem(class_table, subroutine_table, &body[0])?;
    let mut i: usize = 1;
    while i < body.len()
        invariant
            1 <= i,
            cls == class_table@,
            sub == subroutine_table@,
            list_code(cls, sub, body@) == cat(Ok(bytecode@), list_from(cls, sub, body@, i as int)),
        decreases body@.len() - i,
    {
        if i + 1 >= body.len() || !is_symbol_elem(&body[i], Symbol::Comma) {
            return Err(CompileError::MalformedTree);
        }
        let expr = compile_expr_elem(class_table, subroutine_table, &body[i + 1])?;
        bytecode.append(expr.as_str());
        i = i + 2;
    }
    Ok(bytecode)
}

fn is_list_node(e: &ProgramElement) -> (r: bool)
    ensures
        r == is_node(*e, NonTerminalType::ExpressionList),
{
    match e {
        ProgramElement::NonTerminal(nt) => if let NonTerminalType::ExpressionList = nt.nt_type {
            true
        } else {
            false
        },
        _ => false,
    }
}

fn count_of(l: &Vec<ProgramElement>) -> (r: usize)
    ensures
        r == list_count(l@),
        r < usize::MAX,
{
    let n = l.len();
    n / 2 + n % 2
}

/// The code of a call whose first name is child `k` of `cs`.
fn compile_call(class_table: &SymbolTable, subroutine_table: &SymbolTable, cs: &Vec<ProgramElement>, k: usize) -> (r: Result<String, CompileError>)
    ensures
        code_is(r, call_code(class_table@, subroutine_table@, cs@, k as int)),
    decreases cs@, 0int,
{
    if !(k < cs.len() && cs.len() - k > 2) {
        return Err(CompileError::MalformedTree);
    }
    let name = match &cs[k] {
        ProgramElement::Terminal(Token::Identifier(name)) => name,
        _ => {
            return Err(CompileError::MalformedTree);
        },
    };
    if is_symbol_elem(&cs[k + 1], Symbol::LParen) && is_list_node(&cs[k + 2]) {
        let l = match &cs[k + 2] {
            ProgramElement::NonTerminal(nt) => &nt.children,
            _ => {
                return Err(CompileError::MalformedTree);
            },
        };
        let expr_list = compile_expression_list(class_table, subroutine_table, l)?;
        let mut bytecode = String::from_str("push pointer 0\n");
        bytecode.append(expr_list.as_str());
        push_call(&mut bytecode, &class_table.name, name, count_of(l) + 1);
        Ok(bytecode)
    } else if is_symbol_elem(&cs[k + 1], Symbol::Dot) && cs.len() - k > 4 && is_list_node(&cs[k + 4]) {
        let subroutine_name = match &cs[k + 2] {
            ProgramElement::Terminal(Token::Identifier(s)) => s,
            _ => {
                return Err(CompileError::MalformedTree);
            },
        };
        let l = match &cs[k + 4] {
            ProgramElement::NonTerminal(nt) => &nt.children,
            _ => {
                return Err(CompileError::MalformedTree);
            },
        };
        let expr_list = compile_expression_list(class_table, subroutine_table, l)?;
        match resolve_symbol_variable(name, class_table, subroutine_table) {
            Ok(v) => {
                // a method of the object held by the variable
                let class_name = resolve_class_name(name, class_table, subroutine_table)?;
                let mut bytecode = String::from_str("push ");
                push_slot(&mut bytecode, v);
                bytecode.append("\n");
                bytecode.append(expr_list.as_str());
                push_call(&mut bytecode, &class_name, subroutine_name, count_of(l) + 1);
                Ok(bytecode)
            },
            Err(_) => {
                // a function or constructor of the class so named
                let mut bytecode = expr_list;
                push_call(&mut bytecode, name, subroutine_name, count_of(l));
                Ok(bytecode)
            },
        }
    } else {
        Err(CompileError::MalformedTree)
    }
}

/// The code of the children of a term.
fn compile_term(class_table: &SymbolTable, subroutine_table: &SymbolTable, term: &Vec<ProgramElement>) -> (r: Result<String, CompileError>)
    ensures
        code_is(r, term_code(class_table@, subroutine_table@, term@)),
    decreases term@, 1int,
{
    if term.len() == 0 {
        return Err(CompileError::MalformedTree);
    }
    let t = match &term[0] {
        ProgramElement::Terminal(t) => t,
        _ => {
            return Err(CompileError::MalformedTree);
        },
    };
    match t {
        Token::IntConst(s) => {
            if s.as_str().unicode_len() == 0 || !all_digit_chars(s) {
                return Err(CompileError::MalformedTree);
            }
            let mut bytecode = String::from_str("push constant ");
            push_numeral(&mut bytecode, s);
            bytecode.append("\n");
            Ok(bytecode)
        },
        Token::StringConst(s) => {
            let mut bytecode = String::new();
            compile_string(&mut bytecode, s);
            Ok(bytecode)
        },
        Token::Keyword(Keyword::Null) | Token::Keyword(Keyword::False) => Ok(String::from_str("push constant 0\n")),
        Token::Keyword(Keyword::True) => Ok(String::from_str("push constant 1\nneg\n")),
        Token::Keyword(Keyword::This) => Ok(String::from_str("push pointer 0\n")),
        Token::Symbol(Symbol::LParen) => {
            if term.len() < 2 {
                return Err(CompileError::MalformedTree);
            }
            compile_expr_elem(class_table, subroutine_table, &term[1])
        },
        Token::Symbol(Symbol::Minus) => {
            if term.len() < 2 {
                return Err(CompileError::MalformedTree);
            }
            let mut bytecode = compile_term_elem(class_table, subroutine_table, &term[1])?;
            bytecode.append("neg\n");
            Ok(bytecode)
        },
        Token::Symbol(Symbol::Not) => {
            if term.len() < 2 {
                return Err(CompileError::MalformedTree);
            }
            let mut bytecode = compile_term_elem(class_table, subroutine_table, &term[1])?;
            bytecode.append("not\n");
            Ok(bytecode)
        },
        Token::Identifier(name) => {
            if term.len() == 1 {
                compile_access("push ", name, class_table, subroutine_table)
            } else if is_symbol_elem(&term[1], Symbol::LBrack) {
                if term.len() < 3 {
                    return Err(CompileError::MalformedTree);
                }
                let mut bytecode = compile_expr_elem(class_table, subroutine_table, &term[2])?;
                let base = compile_access("push ", name, class_table, subroutine_table)?;
                bytecode.append(base.as_str());
                bytecode.append("add\npop pointer 1\npush that 0\n");
                Ok(bytecode)
            } else {
                compile_call(class_table, subroutine_table, term, 0)
            }
        },
        _ => Err(CompileError::MalformedTree),
    }
}

/// Whether `r` is the emitted `s`, with the class table `t` after it.
pub open spec fn emitted_is(r: Result<String, CompileError>, t: TableView, s: Emitted) -> bool {
    match r {
        Ok(a) => s matches Ok((c, t2)) && c == a@ && t2 == t,
        Err(e) => s == Err::<(Seq<char>, TableView), CompileError>(e),
    }
}

/// The class table keeps its variables and name; only its label counters move.
pub open spec fn labels_only(before: &SymbolTable, after: &SymbolTable) -> bool {
    &&& after.wf()
    &&& after@.vars == before@.vars
    &&& after@.name == before@.name
}

/// `letStatement`.
fn compile_let_statement(class_table: &SymbolTable, subroutine_table: &SymbolTable, body: &Vec<ProgramElement>) -> (r: Result<String, CompileError>)
    ensures
        code_is(r, let_code(class_table@, subroutine_table@, body@)),
{
    if body.len() < 4 {
        return Err(CompileError::MalformedTree);
    }
    let var_name = match &body[1] {
        ProgramElement::Terminal(Token::Identifier(s)) => s,
        _ => {
            return Err(CompileError::MalformedTree);
        },
    };
    if is_symbol_elem(&body[2], Symbol::LBrack) {
        if body.len() < 7 {
            return Err(CompileError::MalformedTree);
        }
        let mut bytecode = compile_expr_elem(class_table, subroutine_table, &body[3])?;
        let base = compile_access("push ", var_name, class_table, subroutine_table)?;
        bytecode.append(base.as_str());
        bytecode.append("add\n");
        let value = compile_expr_elem(class_table, subroutine_table, &body[6])?;
        bytecode.append(value.as_str());
        bytecode.append("pop temp 0\npop pointer 1\npush temp 0\npop that 0\n");
        Ok(bytecode)
    } else if is_symbol_elem(&body[2], Symbol::Equal) {
        let mut bytecode = compile_expr_elem(class_table, subroutine_table, &body[3])?;
        let store = compile_access("pop ", var_name, class_table, subroutine_table)?;
        bytecode.append(store.as_str());
        Ok(bytecode)
    } else {
        Err(CompileError::MalformedTree)
    }
}

/// `returnStatement`.
fn compile_return_statement(class_table: &SymbolTable, subroutine_table: &SymbolTable, body: &Vec<ProgramElement>) -> (r: Result<String, CompileError>)
    ensures
        code_is(r, return_code(class_table@, subroutine_table@, body@)),
{
    if body.len() < 2 {
        return Err(CompileError::MalformedTree);
    }
    if is_symbol_elem(&body[1], Symbol::Semicolon) {
        Ok(String::from_str("push constant 0\nreturn\n"))
    } else {
        let mut bytecode = compile_expr_elem(class_table, subroutine_table, &body[1])?;
        bytecode.append("return\n");
        Ok(bytecode)
    }
}

/// `doStatement`.
fn compile_do_statement(class_table: &SymbolTable, subroutine_table: &SymbolTable, body: &Vec<ProgramElement>) -> (r: Result<String, CompileError>)
    ensures
        code_is(r, do_code(class_table@, subroutine_table@, body@)),
{
    let mut bytecode = compile_call(class_table, subroutine_table, body, 1)?;
    bytecode.append("pop temp 0\n");
    Ok(bytecode)
}

fn push_label(out: &mut String, op: &str, name: &str, n: usize)
    ensures
        final(out)@ == old(out)@ + label_line(op@, name@, n as nat),
{
    out.append(op);
    out.append(name);
    push_decimal(out, n);
    out.append("\n");
}

fn while_text(expr: &String, statements: &String, n: usize) -> (r: String)
    ensures
        r@ == label_line("label "@, "WHILE_START"@, n as nat) + expr@ + "not\n"@
            + label_line("if-goto "@, "WHILE_END"@, n as nat) + statements@
            + label_line("goto "@, "WHILE_START"@, n as nat) + label_line("label "@, "WHILE_END"@, n as nat),
{
    let mut bytecode = String::new();
    push_label(&mut bytecode, "label ", "WHILE_START", n);
    bytecode.append(expr.as_str());
    bytecode.append("not\n");
    push_label(&mut bytecode, "if-goto ", "WHILE_END", n);
    bytecode.append(statements.as_str());
    push_label(&mut bytecode, "goto ", "WHILE_START", n);
    push_label(&mut bytecode, "label ", "WHILE_END", n);
    assert(bytecode@ =~= label_line("label "@, "WHILE_START"@, n as nat) + expr@ + "not\n"@
        + label_line("if-goto "@, "WHILE_END"@, n as nat) + statements@
        + label_line("goto "@, "WHILE_START"@, n as nat) + label_line("label "@, "WHILE_END"@, n as nat));
    bytecode
}

fn if_text(expr: &String, statements: &String, else_statements: &String, n: usize) -> (r: String)
    ensures
        r@ == expr@ + "not\n"@ + label_line("if-goto "@, "IF_END"@, n as nat) + statements@
            + label_line("goto "@, "ELSE_END"@, n as nat) + label_line("label "@, "IF_END"@, n as nat)
            + else_statements@ + label_line("label "@, "ELSE_END"@, n as nat),
{
    let mut bytecode = String::new();
    bytecode.append(expr.as_str());
    bytecode.append("not\n");
    push_label(&mut bytecode, "if-goto ", "IF_END", n);
    bytecode.append(statements.as_str());
    push_label(&mut bytecode, "goto ", "ELSE_END", n);
    push_label(&mut bytecode, "label ", "IF_END", n);
    bytecode.append(else_statements.as_str());
    push_label(&mut bytecode, "label ", "ELSE_END", n);
    assert(bytecode@ =~= expr@ + "not\n"@ + label_line("if-goto "@, "IF_END"@, n as nat) + statements@
        + label_line("goto "@, "ELSE_END"@, n as nat) + label_line("label "@, "IF_END"@, n as nat)
        + else_statements@ + label_line("label "@, "ELSE_END"@, n as nat));
    bytecode
}

/// Numbers a while loop and lays out its code.
fn finish_while(class_table: &mut SymbolTable, expr: &String, statements: &String) -> (r: Result<String, CompileError>)
    requires
        old(class_table).wf(),
    ensures
        labels_only(old(class_table), final(class_table)),
        emitted_is(r, final(class_table)@, while_finish(expr@, Ok((statements@, old(class_table)@)))),
{
    if class_table.while_labels == usize::MAX {
        return Err(CompileError::CounterOverflow);
    }
    let ghost t = class_table@;
    class_table.while_labels = class_table.while_labels + 1;
    let n = class_table.while_labels;
    assert(class_table@ == (TableView { whiles: n as nat, ..t })) by {
        assert(class_table@.vars =~= t.vars);
    }
    Ok(while_text(expr, statements, n))
}

/// `whileStatement`.
fn compile_while_statement(class_table: &mut SymbolTable, subroutine_table: &SymbolTable, body: &Vec<ProgramElement>) -> (r: Result<String, CompileError>)
    requires
        old(class_table).wf(),
    ensures
        labels_only(old(class_table), final(class_table)),
        emitted_is(r, final(class_table)@, while_code(old(class_table)@, subroutine_table@, body@)),
    decreases body@, 0int,
{
    if body.len() < 6 {
        return Err(CompileError::MalformedTree);
    }
    let expr = compile_expr_elem(class_table, subroutine_table, &body[2])?;
    let statements = compile_statements_elem(class_table, subroutine_table, &body[5])?;
    finish_while(class_table, &expr, &statements)
}

/// Numbers a conditional and lays out its code.
fn finish_if(class_table: &mut SymbolTable, expr: &String, statements: &String, else_statements: &String) -> (r: Result<String, CompileError>)
    requires
        old(class_table).wf(),
    ensures
        labels_only(old(class_table), final(class_table)),
        emitted_is(r, final(class_table)@, if_finish(expr@, statements@, Ok((else_statements@, old(class_table)@)))),
{
    if class_table.if_labels == usize::MAX {
        return Err(CompileError::CounterOverflow);
    }
    let ghost t = class_table@;
    class_table.if_labels = class_table.if_labels + 1;
    let n = class_table.if_labels;
    assert(class_table@ == (TableView { ifs: n as nat, ..t })) by {
        assert(class_table@.vars =~= t.vars);
    }
    Ok(if_text(expr, statements, else_statements, n))
}

/// `ifStatement`.
fn compile_if_statement(class_table: &mut SymbolTable, subroutine_table: &SymbolTable, body: &Vec<ProgramElement>) -> (r: Result<String, CompileError>)
    requires
        old(class_table).wf(),
    ensures
        labels_only(old(class_table), final(class_table)),
        emitted_is(r, final(class_table)@, if_code(old(class_table)@, subroutine_table@, body@)),
    decreases body@, 0int,
{
    if body.len() < 6 {
        return Err(CompileError::MalformedTree);
    }
    let expr = compile_expr_elem(class_table, subroutine_table, &body[2])?;
    let statements = compile_statements_elem(class_table, subroutine_table, &body[5])?;
    let else_statements = if body.len() > 9 {
        compile_statements_elem(class_table, subroutine_table, &body[9])?
    } else {
        String::new()
    };
    finish_if(class_table, &expr, &statements, &else_statements)
}

/// One statement node.
fn compile_statement(class_table: &mut SymbolTable, subroutine_table: &SymbolTable, e: &ProgramElement) -> (r: Result<String, CompileError>)
    requires
        old(class_table).wf(),
    ensures
        labels_only(old(class_table), final(class_table)),
        emitted_is(r, final(class_table)@, stmt_code(old(class_table)@, subroutine_table@, *e)),
    decreases *e, 0int,
{
    match e {
        ProgramElement::NonTerminal(nt) => match nt.nt_type {
            NonTerminalType::LetStatement => compile_let_statement(class_table, subroutine_table, &nt.children),
            NonTerminalType::DoStatement => compile_do_statement(class_table, subroutine_table, &nt.children),
            NonTerminalType::ReturnStatement => compile_return_statement(class_table, subroutine_table, &nt.children),
            NonTerminalType::IfStatement => compile_if_statement(class_table, subroutine_table, &nt.children),
            NonTerminalType::WhileStatement => compile_while_statement(class_table, subroutine_table, &nt.children),
            _ => Err(CompileError::MalformedTree),
        },
        _ => Err(CompileError::MalformedTree),
    }
}

/// A statements node.
fn compile_statements_elem(class_table: &mut SymbolTable, subroutine_table: &SymbolTable, e: &ProgramElement) -> (r: Result<String, CompileError>)
    requires
        old(class_table).wf(),
    ensures
        labels_only(old(class_table), final(class_table)),
        emitted_is(r, final(class_table)@, stmts_elem(old(class_table)@, subroutine_table@, *e)),
    decreases *e, 0int,
{
    match e {
        ProgramElement::NonTerminal(nt) => if let NonTerminalType::Statements = nt.nt_type {
            compile_statements(class_table, subroutine_table, &nt.children)
        } else {
            Err(CompileError::MalformedTree)
        },
        _ => Err(CompileError::MalformedTree),
    }
}

/// The statements `statements`, in order.
fn compile_statements(class_table: &mut SymbolTable, subroutine_table: &SymbolTable, statements: &Vec<ProgramElement>) -> (r: Result<String, CompileError>)
    requires
        old(class_table).wf(),
    ensures
        labels_only(old(class_table), final(class_table)),
        emitted_is(r, final(class_table)@, stmts_from(old(class_table)@, subroutine_table@, statements@, 0)),
        r is Ok ==> ({
            let ifs = numbers_from(old(class_table)@.ifs, statements@, 0, NonTerminalType::IfStatement);
            let whiles = numbers_from(old(class_table)@.whiles, statements@, 0, NonTerminalType::WhileStatement);
            &&& final(class_table)@.ifs == old(class_table)@.ifs + count_from(statements@, 0, NonTerminalType::IfStatement)
            &&& final(class_table)@.whiles == old(class_table)@.whiles
                + count_from(statements@, 0, NonTerminalType::WhileStatement)
            &&& increasing(ifs) && within(ifs, old(class_table)@.ifs, final(class_table)@.ifs)
            &&& increasing(whiles) && within(whiles, old(class_table)@.whiles, final(class_table)@.whiles)
        }),
    decreases statements@, statements@.len() + 1,
{
    let ghost sub = subroutine_table@;
    let ghost target = stmts_from(class_table@, sub, statements@, 0);
    let mut bytecode = String::new();
    let mut i: usize = 0;
    assert(after(bytecode@, target) == target) by {
        if let Ok((c, t)) = target {
            assert(bytecode@ + c =~= c);
        }
    }
    while i < statements.len()
        invariant
            i <= statements@.len(),
            sub == subroutine_table@,
            target == stmts_from(old(class_table)@, sub, statements@, 0),
            labels_only(old(class_table), class_table),
            target == after(bytecode@, stmts_from(class_table@, sub, statements@, i as int)),
        decreases statements@.len() - i,
    {
        let ghost before = class_table@;
        let s = compile_statement(class_table, subroutine_table, &statements[i])?;
        proof {
            let rest = stmts_from(class_table@, sub, statements@, i + 1);
            assert(after(bytecode@, after(s@, rest)) == after(bytecode@ + s@, rest));
        }
        bytecode.append(s.as_str());
        i = i + 1;
    }
    proof {
        assert(bytecode@ + Seq::<char>::empty() =~= bytecode@);
    }
    proof {
        lemma_labels_unique(old(class_table)@, sub, statements@);
    }
    Ok(bytecode)
}

/// The table `t` with its variables replaced by `vs`.
pub open spec fn with_vars(t: TableView, vs: Seq<VarView>) -> TableView {
    TableView { vars: vs, ..t }
}

/// Whether `r` reports the declarations `s` made into the table `before`, giving `after`.
pub open spec fn declared(r: Result<(), CompileError>, before: TableView, after: TableView, s: Result<Seq<VarView>, CompileError>) -> bool {
    match s {
        Ok(vs) => r is Ok && after == with_vars(before, vs),
        Err(e) => r == Err::<(), CompileError>(e),
    }
}

/// The type that a type token declares.
fn get_sym_type(t: &ProgramElement) -> (r: Result<SymType, CompileError>)
    ensures
        match sym_type_of(*t) {
            Ok(ty) => r is Ok && r->Ok_0@ == ty,
            Err(e) => r == Err::<SymType, CompileError>(e),
        },
{
    match t {
        ProgramElement::Terminal(Token::Keyword(Keyword::Int)) => Ok(SymType::Int),
        ProgramElement::Terminal(Token::Keyword(Keyword::Boolean)) => Ok(SymType::Boolean),
        ProgramElement::Terminal(Token::Keyword(Keyword::Char)) => Ok(SymType::Char),
        ProgramElement::Terminal(Token::Identifier(s)) => Ok(SymType::Class(s.clone())),
        _ => Err(CompileError::MalformedTree),
    }
}

/// Declares the names listed from child `start` of a declaration, up to its `;`.
fn declare_names(table: &mut SymbolTable, cs: &Vec<ProgramElement>, start: usize, sym_type: &SymType, scope: Scope) -> (r: Result<(), CompileError>)
    requires
        old(table).wf(),
    ensures
        final(table).wf(),
        declared(r, old(table)@, final(table)@, names_from(old(table)@.vars, cs@, start as int, sym_type@, scope)),
{
    let ghost target = names_from(table@.vars, cs@, start as int, sym_type@, scope);
    let mut i = start;
    loop
        invariant
            table.wf(),
            table@ == with_vars(old(table)@, table@.vars),
            target == names_from(old(table)@.vars, cs@, start as int, sym_type@, scope),
            target == names_from(table@.vars, cs@, i as int, sym_type@, scope),
        decreases cs@.len() - i,
    {
        if i >= cs.len() {
            return Err(CompileError::MalformedTree);
        }
        match &cs[i] {
            ProgramElement::Terminal(Token::Identifier(name)) => {
                table.add(name, sym_type, scope)?;
            },
            ProgramElement::Terminal(Token::Symbol(Symbol::Semicolon)) => {
                return Ok(());
            },
            ProgramElement::Terminal(Token::Symbol(Symbol::Comma)) => {},
            _ => {
                return Err(CompileError::MalformedTree);
            },
        }
        i = i + 1;
    }
}

/// A declaration `keyword type name (',' name)* ';'` of storage class `scope`.
fn compile_declaration(table: &mut SymbolTable, cs: &Vec<ProgramElement>, scope: Scope) -> (r: Result<(), CompileError>)
    requires
        old(table).wf(),
    ensures
        final(table).wf(),
        declared(r, old(table)@, final(table)@, declaration(old(table)@.vars, cs@, scope)),
{
    if cs.len() < 2 {
        return Err(CompileError::MalformedTree);
    }
    let sym_type = get_sym_type(&cs[1])?;
    declare_names(table, cs, 2, &sym_type, scope)
}

/// `classVarDec`: declares fields or statics in the class table.
fn compile_class_var_dec(class_table: &mut SymbolTable, t: &Vec<ProgramElement>) -> (r: Result<(), CompileError>)
    requires
        old(class_table).wf(),
    ensures
        final(class_table).wf(),
        declared(r, old(class_table)@, final(class_table)@, class_var_dec(old(class_table)@.vars, t@)),
        r is Ok ==> ({
            let field = is_keyword(t@[0], Keyword::Field);
            let s = if field { Scope::Field } else { Scope::Static };
            let before = old(class_table)@.vars;
            let after = final(class_table)@.vars;
            let added = (after.len() - before.len()) as nat;
            &&& field || is_keyword(t@[0], Keyword::Static)
            &&& appended(before, after, s)
            &&& forall|k: int| before.len() <= k < after.len() ==> (#[trigger] after[k]).index
                == (if field { old(class_table).field_offset } else { old(class_table).static_offset }) + (k - before.len())
            &&& final(class_table).field_offset == old(class_table).field_offset + if field { added } else { 0 }
            &&& final(class_table).static_offset == old(class_table).static_offset + if field { 0 } else { added }
        }),
{
    proof {
        if class_var_dec(old(class_table)@.vars, t@) is Ok {
            lemma_class_var_dec_appends(old(class_table)@.vars, t@);
        }
    }
    reveal(class_var_dec);
    if t.len() == 0 {
        return Err(CompileError::MalformedTree);
    }
    let scope = match &t[0] {
        ProgramElement::Terminal(Token::Keyword(Keyword::Field)) => Scope::Field,
        ProgramElement::Terminal(Token::Keyword(Keyword::Static)) => Scope::Static,
        _ => {
            return Err(CompileError::MalformedTree);
        },
    };
    compile_declaration(class_table, t, scope)
}

/// `varDec`: declares locals in the subroutine table.
fn compile_subroutine_var_dec(table: &mut SymbolTable, body: &Vec<ProgramElement>) -> (r: Result<(), CompileError>)
    requires
        old(table).wf(),
    ensures
        final(table).wf(),
        declared(r, old(table)@, final(table)@, var_dec(old(table)@.vars, body@)),
{
    reveal(var_dec);
    if body.len() == 0 {
        return Err(CompileError::MalformedTree);
    }
    match &body[0] {
        ProgramElement::Terminal(Token::Keyword(Keyword::Var)) => {},
        _ => {
            return Err(CompileError::MalformedTree);
        },
    }
    compile_declaration(table, body, Scope::Var)
}

/// Declares the parameters `params`, in order, as arguments.
fn declare_params(table: &mut SymbolTable, params: &Vec<ProgramElement>) -> (r: Result<(), CompileError>)
    requires
        old(table).wf(),
    ensures
        final(table).wf(),
        declared(r, old(table)@, final(table)@, params_from(old(table)@.vars, params@, 0)),
{
    let ghost target = params_from(table@.vars, params@, 0);
    let mut i: usize = 0;
    while i < params.len()
        invariant
            table.wf(),
            table@ == with_vars(old(table)@, table@.vars),
            target == params_from(old(table)@.vars, params@, 0),
            target == params_from(table@.vars, params@, i as int),
        decreases params@.len() - i,
    {
        if i + 1 >= params.len() {
            return Err(CompileError::MalformedTree);
        }
        let sym_type = get_sym_type(&params[i])?;
        match &params[i + 1] {
            ProgramElement::Terminal(Token::Identifier(name)) => {
                table.add(name, &sym_type, Scope::Arg)?;
            },
            _ => {
                return Err(CompileError::MalformedTree);
            },
        }
        if i + 2 >= params.len() {
            return Ok(());
        }
        if !is_symbol_elem(&params[i + 2], Symbol::Comma) {
            return Err(CompileError::MalformedTree);
        }
        i = i + 3;
    }
    Ok(())
}

/// `paramList`: declares the arguments in order.
fn compile_param_list(table: &mut SymbolTable, params: &Vec<ProgramElement>) -> (r: Result<(), CompileError>)
    requires
        old(table).wf(),
    ensures
        final(table).wf(),
        declared(r, old(table)@, final(table)@, params_from(old(table)@.vars, params@, 0)),
        r is Ok && params@.len() >= 2 ==> ({
            let before = old(table)@.vars;
            let after = final(table)@.vars;
            &&& after.len() > before.len()
            &&& after[before.len() as int].scope == Scope::Arg
            &&& after[before.len() as int].index == old(table).arg_offset
            &&& params@[1] matches ProgramElement::Terminal(Token::Identifier(n)) && after[before.len() as int].name == n@
        }),
{
    let r = declare_params(table, params);
    proof {
        if params_from(old(table)@.vars, params@, 0) is Ok && params@.len() >= 2 {
            lemma_first_param(old(table)@.vars, params@);
        }
    }
    r
}

fn prologue_text(kind: Keyword, field_count: usize) -> (r: String)
    ensures
        forall|cls: TableView| field_count == count_scope(cls.vars, Scope::Field) ==> r@ == prologue(kind, cls),
{
    reveal(prologue);
    match kind {
        Keyword::Method => String::from_str("push argument 0\npop pointer 0\n"),
        Keyword::Constructor => {
            let mut s = String::from_str("push constant ");
            push_decimal(&mut s, field_count);
            s.append("\ncall Memory.alloc 1\npop pointer 0\n");
            s
        },
        _ => String::new(),
    }
}

/// The code of a subroutine body: declares its locals, then emits the function header,
/// the prologue of `kind` and the statements.
fn compile_subroutine_body(class_table: &mut SymbolTable, subroutine_table: &mut SymbolTable, kind: Keyword, e: &ProgramElement) -> (r: Result<String, CompileError>)
    requires
        old(class_table).wf(),
        old(subroutine_table).wf(),
        old(subroutine_table)@.ifs == 0,
        old(subroutine_table)@.whiles == 0,
    ensures
        labels_only(old(class_table), final(class_table)),
        emitted_is(r, final(class_table)@, body_code(old(class_table)@, kind, old(subroutine_table)@.name,
            old(subroutine_table)@.vars, *e)),
{
    reveal(body_code);
    let body = match e {
        ProgramElement::NonTerminal(nt) => if let NonTerminalType::SubroutineBody = nt.nt_type {
            &nt.children
        } else {
            return Err(CompileError::MalformedTree);
        },
        _ => {
            return Err(CompileError::MalformedTree);
        },
    };
    if body.len() < 3 {
        return Err(CompileError::MalformedTree);
    }
    let end = body.len() - 2;
    compile_locals(subroutine_table, body, end)?;
    let statements = compile_statements_elem(class_table, subroutine_table, &body[end])?;
    let mut bytecode = String::from_str("function ");
    bytecode.append(class_table.name.as_str());
    bytecode.append(".");
    bytecode.append(subroutine_table.name.as_str());
    bytecode.append(" ");
    push_decimal(&mut bytecode, subroutine_table.var_offset);
    bytecode.append("\n");
    let prologue = prologue_text(kind, class_table.field_offset);
    bytecode.append(prologue.as_str());
    bytecode.append(statements.as_str());
    Ok(bytecode)
}

/// `subroutineDec`: the code of one subroutine, with a fresh table for its arguments and
/// locals.
fn compile_subroutine_dec(class_table: &mut SymbolTable, t: &Vec<ProgramElement>) -> (r: Result<String, CompileError>)
    requires
        old(class_table).wf(),
    ensures
        labels_only(old(class_table), final(class_table)),
        emitted_is(r, final(class_table)@, subroutine_code(old(class_table)@, t@)),
        r is Ok ==> final(class_table)@.ifs >= old(class_table)@.ifs
            && final(class_table)@.whiles >= old(class_table)@.whiles,
{
    proof {
        if subroutine_code(old(class_table)@, t@) is Ok {
            lemma_subroutine_counters(old(class_table)@, t@);
        }
    }
    reveal(subroutine_code);
    if t.len() < 7 {
        return Err(CompileError::MalformedTree);
    }
    let kind = match &t[0] {
        ProgramElement::Terminal(Token::Keyword(k)) => *k,
        _ => {
            return Err(CompileError::MalformedTree);
        },
    };
    let name = match &t[2] {
        ProgramElement::Terminal(Token::Identifier(n)) => n,
        _ => {
            return Err(CompileError::MalformedTree);
        },
    };
    let mut subroutine_table = SymbolTable::new();
    subroutine_table.name = name.clone();
    match kind {
        Keyword::Method => {
            let this_name = String::from_str("this");
            let this_type = SymType::Class(class_table.name.clone());
            let added = subroutine_table.add(&this_name, &this_type, Scope::Arg);
            proof {
                assert(subroutine_table@.vars =~= receiver(class_table@));
            }
            if added.is_err() {
                return Err(CompileError::MalformedTree);
            }
        },
        Keyword::Constructor | Keyword::Function => {
            assert(subroutine_table@.vars =~= Seq::<VarView>::empty());
        },
        _ => {
            return Err(CompileError::MalformedTree);
        },
    }
    match &t[4] {
        ProgramElement::NonTerminal(nt) => if let NonTerminalType::ParamList = nt.nt_type {
            compile_param_list(&mut subroutine_table, &nt.children)?;
        } else {
            return Err(CompileError::MalformedTree);
        },
        _ => {
            return Err(CompileError::MalformedTree);
        },
    }
    compile_subroutine_body(class_table, &mut subroutine_table, kind, &t[6])
}

/// Generates the bytecode of one class: one function block per subroutine, in order.
pub fn code_gen(tree: NonTerminalElement) -> (r: Result<String, CompileError>)
    ensures
        code_is(r, class_code(tree)),
{
    if let NonTerminalType::Class = tree.nt_type {
    } else {
        return Err(CompileError::MalformedTree);
    }
    let mut class_table = SymbolTable::new();
    let mut bytecode = String::new();
    let ghost target = class_from(class_table@, tree.children@, 0);
    assert(class_table@ == empty_table()) by {
        assert(class_table@.vars =~= Seq::<VarView>::empty());
        assert(class_table@.name =~= Seq::<char>::empty());
    }
    assert(after(bytecode@, target) == target) by {
        if let Ok((c, t)) = target {
            assert(bytecode@ + c =~= c);
        }
    }
    let mut i: usize = 0;
    while i < tree.children.len()
        invariant
            class_table.wf(),
            tree.nt_type == NonTerminalType::Class,
            target == class_from(empty_table(), tree.children@, 0),
            target == after(bytecode@, class_from(class_table@, tree.children@, i as int)),
        decreases tree.children@.len() - i,
    {
        match &tree.children[i] {
            ProgramElement::Terminal(Token::Identifier(class_name)) => {
                class_table.name = class_name.clone();
            },
            ProgramElement::NonTerminal(t) => match t.nt_type {
                NonTerminalType::ClassVarDec => {
                    compile_class_var_dec(&mut class_table, &t.children)?;
                },
                NonTerminalType::SubroutineDec => {
                    let s = compile_subroutine_dec(&mut class_table, &t.children)?;
                    proof {
                        let rest = class_from(class_table@, tree.children@, i + 1);
                        assert(after(bytecode@, after(s@, rest)) == after(bytecode@ + s@, rest));
                    }
                    bytecode.append(s.as_str());
                },
                _ => {},
            },
            _ => {},
        }
        i = i + 1;
    }
    proof {
        assert(bytecode@ + Seq::<char>::empty() =~= bytecode@);
    }
    Ok(bytecode)
}

} // verus!
