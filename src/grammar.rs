use vstd::prelude::*;
use crate::lexer::{Keyword, Symbol, TokenView};

verus! {

// The grammar of a class, as the number of tokens that each construct spans at the front
// of a token sequence: `Some(n)` when the sequence starts with that construct, spanning
// `n` tokens, and `None` when it does not. One token of lookahead decides every choice.

/// A declared type: `int`, `char`, `boolean` or a class name.
pub open spec fn is_type_token(t: TokenView) -> bool {
    match t {
        TokenView::Keyword(k) => k == Keyword::Int || k == Keyword::Char || k == Keyword::Boolean,
        TokenView::Identifier(_) => true,
        _ => false,
    }
}

/// The binary operators: `+ - * / & | < > =`.
pub open spec fn is_op(t: TokenView) -> bool {
    match t {
        TokenView::Symbol(s) => s == Symbol::Add || s == Symbol::Minus || s == Symbol::Mult
            || s == Symbol::Division || s == Symbol::And || s == Symbol::Or
            || s == Symbol::LessThan || s == Symbol::GreaterThan || s == Symbol::Equal,
        _ => false,
    }
}

/// Whether `t` alone makes a term: a constant, or `true`, `false`, `null`, `this`.
pub open spec fn is_constant_token(t: TokenView) -> bool {
    match t {
        TokenView::IntConst(_) | TokenView::StringConst(_) => true,
        TokenView::Keyword(k) => k == Keyword::True || k == Keyword::False || k == Keyword::Null
            || k == Keyword::This,
        _ => false,
    }
}

/// Dropping `a` tokens and then `b` is dropping `a + b`.
pub broadcast proof fn lemma_skip_skip<A>(s: Seq<A>, a: int, b: int)
    requires
        0 <= a,
        0 <= b,
        a + b <= s.len(),
    ensures
        #[trigger] s.skip(a).skip(b) == s.skip((a + b) as int),
{
    assert(s.skip(a).skip(b) =~= s.skip((a + b) as int));
}

/// Dropping nothing keeps everything.
pub broadcast proof fn lemma_skip_zero<A>(s: Seq<A>)
    ensures
        #[trigger] s.skip(0) == s,
{
    assert(s.skip(0) =~= s);
}

pub open spec fn shift(k: nat, r: Option<nat>) -> Option<nat> {
    match r {
        Some(n) => Some(n + k),
        None => None,
    }
}

pub open spec fn sym_first(ts: Seq<TokenView>, s: Symbol) -> bool {
    ts.len() > 0 && ts[0] == TokenView::Symbol(s)
}

pub open spec fn kw_first(ts: Seq<TokenView>, k: Keyword) -> bool {
    ts.len() > 0 && ts[0] == TokenView::Keyword(k)
}

pub open spec fn ident_first(ts: Seq<TokenView>) -> bool {
    ts.len() > 0 && ts[0] is Identifier
}

pub open spec fn type_first(ts: Seq<TokenView>) -> bool {
    ts.len() > 0 && is_type_token(ts[0])
}

/// `(',' name)* ';'`
#[verifier::opaque]
pub open spec fn names_len(ts: Seq<TokenView>) -> Option<nat>
    decreases ts.len(),
{
    if sym_first(ts, Symbol::Comma) {
        if ts.len() >= 2 && ident_first(ts.skip(1)) {
            shift(2, names_len(ts.skip(2)))
        } else {
            None
        }
    } else if sym_first(ts, Symbol::Semicolon) {
        Some(1)
    } else {
        None
    }
}

/// `('static'|'field') type name (',' name)* ';'`, the keyword having been seen.
#[verifier::opaque]
pub open spec fn class_var_dec_len(ts: Seq<TokenView>) -> Option<nat> {
    if ts.len() >= 3 && type_first(ts.skip(1)) && ident_first(ts.skip(2)) {
        shift(3, names_len(ts.skip(3)))
    } else {
        None
    }
}

/// `classVarDec*`
#[verifier::opaque]
pub open spec fn class_var_decs_len(ts: Seq<TokenView>) -> Option<nat>
    decreases ts.len(),
{
    if kw_first(ts, Keyword::Static) || kw_first(ts, Keyword::Field) {
        match class_var_dec_len(ts) {
            Some(n) => if 1 <= n <= ts.len() {
                shift(n, class_var_decs_len(ts.skip(n as int)))
            } else {
                None
            },
            None => None,
        }
    } else {
        Some(0)
    }
}

/// `type name (',' type name)*`
#[verifier::opaque]
pub open spec fn params_tail_len(ts: Seq<TokenView>) -> Option<nat>
    decreases ts.len(),
{
    if ts.len() >= 2 && type_first(ts) && ident_first(ts.skip(1)) {
        if sym_first(ts.skip(2), Symbol::Comma) {
            shift(3, params_tail_len(ts.skip(3)))
        } else {
            Some(2)
        }
    } else {
        None
    }
}

/// `paramList`, up to the closing parenthesis.
#[verifier::opaque]
pub open spec fn param_list_len(ts: Seq<TokenView>) -> Option<nat> {
    if sym_first(ts, Symbol::RParen) {
        Some(0)
    } else {
        params_tail_len(ts)
    }
}

/// `varDec`
#[verifier::opaque]
pub open spec fn var_dec_len(ts: Seq<TokenView>) -> Option<nat> {
    if ts.len() >= 3 && kw_first(ts, Keyword::Var) && type_first(ts.skip(1)) && ident_first(ts.skip(2)) {
        shift(3, names_len(ts.skip(3)))
    } else {
        None
    }
}

/// `varDec*`
#[verifier::opaque]
pub open spec fn var_decs_len(ts: Seq<TokenView>) -> Option<nat>
    decreases ts.len(),
{
    if kw_first(ts, Keyword::Var) {
        match var_dec_len(ts) {
            Some(n) => if 1 <= n <= ts.len() {
                shift(n, var_decs_len(ts.skip(n as int)))
            } else {
                None
            },
            None => None,
        }
    } else {
        Some(0)
    }
}

/// `term`
#[verifier::opaque]
pub open spec fn term_len(ts: Seq<TokenView>) -> Option<nat>
    decreases ts.len(), 0int,
{
    if ts.len() == 0 {
        None
    } else if is_constant_token(ts[0]) {
        Some(1)
    } else if ts[0] == TokenView::Symbol(Symbol::Minus) || ts[0] == TokenView::Symbol(Symbol::Not) {
        shift(1, term_len(ts.skip(1)))
    } else if ts[0] is Identifier {
        if sym_first(ts.skip(1), Symbol::LBrack) {
            match expr_len(ts.skip(2)) {
                Some(e) => if e + 2 < ts.len() && sym_first(ts.skip((e + 2) as int), Symbol::RBrack) {
                    Some(e + 3)
                } else {
                    None
                },
                None => None,
            }
        } else if sym_first(ts.skip(1), Symbol::LParen) || sym_first(ts.skip(1), Symbol::Dot) {
            shift(1, call_len(ts.skip(1)))
        } else {
            Some(1)
        }
    } else if ts[0] == TokenView::Symbol(Symbol::LParen) {
        match expr_len(ts.skip(1)) {
            Some(e) => if e + 1 < ts.len() && sym_first(ts.skip((e + 1) as int), Symbol::RParen) {
                Some(e + 2)
            } else {
                None
            },
            None => None,
        }
    } else {
        None
    }
}

/// The rest of a call after its first name: `'(' expressionList ')'` or
/// `'.' name '(' expressionList ')'`.
#[verifier::opaque]
pub open spec fn call_len(ts: Seq<TokenView>) -> Option<nat>
    decreases ts.len(), 0int,
{
    if sym_first(ts, Symbol::LParen) {
        match expr_list_len(ts.skip(1)) {
            Some(l) => if l + 1 < ts.len() && sym_first(ts.skip((l + 1) as int), Symbol::RParen) {
                Some(l + 2)
            } else {
                None
            },
            None => None,
        }
    } else if sym_first(ts, Symbol::Dot) {
        if ts.len() >= 3 && ident_first(ts.skip(1)) && sym_first(ts.skip(2), Symbol::LParen) {
            match expr_list_len(ts.skip(3)) {
                Some(l) => if l + 3 < ts.len() && sym_first(ts.skip((l + 3) as int), Symbol::RParen) {
                    Some(l + 4)
                } else {
                    None
                },
                None => None,
            }
        } else {
            None
        }
    } else {
        None
    }
}

/// `expression := term (op term)*`
#[verifier::opaque]
pub open spec fn expr_len(ts: Seq<TokenView>) -> Option<nat>
    decreases ts.len(), 1int,
{
    match term_len(ts) {
        Some(t) => if 1 <= t <= ts.len() {
            shift(t, ops_len(ts.skip(t as int)))
        } else {
            None
        },
        None => None,
    }
}

/// `(op term)*`
#[verifier::opaque]
pub open spec fn ops_len(ts: Seq<TokenView>) -> Option<nat>
    decreases ts.len(), 2int,
{
    if ts.len() > 0 && is_op(ts[0]) {
        match term_len(ts.skip(1)) {
            Some(t) => if 1 <= t && t + 1 <= ts.len() {
                shift(t + 1, ops_len(ts.skip((t + 1) as int)))
            } else {
                None
            },
            None => None,
        }
    } else {
        Some(0)
    }
}

/// `expressionList`, up to the closing parenthesis.
#[verifier::opaque]
pub open spec fn expr_list_len(ts: Seq<TokenView>) -> Option<nat>
    decreases ts.len(), 3int,
{
    if sym_first(ts, Symbol::RParen) {
        Some(0)
    } else {
        match expr_len(ts) {
            Some(e) => if 1 <= e <= ts.len() {
                shift(e, more_exprs_len(ts.skip(e as int)))
            } else {
                None
            },
            None => None,
        }
    }
}

/// `(',' expression)*`
#[verifier::opaque]
pub open spec fn more_exprs_len(ts: Seq<TokenView>) -> Option<nat>
    decreases ts.len(), 2int,
{
    if sym_first(ts, Symbol::Comma) {
        match expr_len(ts.skip(1)) {
            Some(e) => if 1 <= e && e + 1 <= ts.len() {
                shift(e + 1, more_exprs_len(ts.skip((e + 1) as int)))
            } else {
                None
            },
            None => None,
        }
    } else {
        Some(0)
    }
}

/// `('[' expression ']')?` after the name in a let statement.
#[verifier::opaque]
pub open spec fn index_len(ts: Seq<TokenView>) -> Option<nat> {
    if sym_first(ts, Symbol::LBrack) {
        match expr_len(ts.skip(1)) {
            Some(e) => if e + 1 < ts.len() && sym_first(ts.skip((e + 1) as int), Symbol::RBrack) {
                Some(e + 2)
            } else {
                None
            },
            None => None,
        }
    } else {
        Some(0)
    }
}

/// `letStatement`
#[verifier::opaque]
pub open spec fn let_len(ts: Seq<TokenView>) -> Option<nat> {
    if ts.len() >= 2 && kw_first(ts, Keyword::Let) && ident_first(ts.skip(1)) {
        match index_len(ts.skip(2)) {
            Some(a) => if a + 2 < ts.len() && sym_first(ts.skip((a + 2) as int), Symbol::Equal) {
                match expr_len(ts.skip((a + 3) as int)) {
                    Some(e) => if a + e + 3 < ts.len() && sym_first(ts.skip((a + e + 3) as int), Symbol::Semicolon) {
                        Some(a + e + 4)
                    } else {
                        None
                    },
                    None => None,
                }
            } else {
                None
            },
            None => None,
        }
    } else {
        None
    }
}

/// `'(' expression ')'`
#[verifier::opaque]
pub open spec fn cond_len(ts: Seq<TokenView>) -> Option<nat> {
    if sym_first(ts, Symbol::LParen) {
        match expr_len(ts.skip(1)) {
            Some(e) => if e + 1 < ts.len() && sym_first(ts.skip((e + 1) as int), Symbol::RParen) {
                Some(e + 2)
            } else {
                None
            },
            None => None,
        }
    } else {
        None
    }
}

/// `'{' statements '}'`
#[verifier::opaque]
pub open spec fn block_len(ts: Seq<TokenView>) -> Option<nat>
    decreases ts.len(), 0int,
{
    if sym_first(ts, Symbol::LBrace) {
        match statements_len(ts.skip(1)) {
            Some(s) => if s + 1 < ts.len() && sym_first(ts.skip((s + 1) as int), Symbol::RBrace) {
                Some(s + 2)
            } else {
                None
            },
            None => None,
        }
    } else {
        None
    }
}

/// `ifStatement`
#[verifier::opaque]
pub open spec fn if_len(ts: Seq<TokenView>) -> Option<nat>
    decreases ts.len(), 0int,
{
    if kw_first(ts, Keyword::If) {
        match cond_len(ts.skip(1)) {
            Some(c) => if c + 1 <= ts.len() {
                match block_len(ts.skip((c + 1) as int)) {
                    Some(b) => {
                        let k = c + b + 1;
                        if k < ts.len() && kw_first(ts.skip(k as int), Keyword::Else) {
                            shift(k + 1, block_len(ts.skip((k + 1) as int)))
                        } else {
                            Some(k)
                        }
                    },
                    None => None,
                }
            } else {
                None
            },
            None => None,
        }
    } else {
        None
    }
}

/// `whileStatement`
#[verifier::opaque]
pub open spec fn while_len(ts: Seq<TokenView>) -> Option<nat>
    decreases ts.len(), 0int,
{
    if kw_first(ts, Keyword::While) {
        match cond_len(ts.skip(1)) {
            Some(c) => if c + 1 <= ts.len() {
                shift(c + 1, block_len(ts.skip((c + 1) as int)))
            } else {
                None
            },
            None => None,
        }
    } else {
        None
    }
}

/// `doStatement`
#[verifier::opaque]
pub open spec fn do_len(ts: Seq<TokenView>) -> Option<nat> {
    if ts.len() >= 2 && kw_first(ts, Keyword::Do) && ident_first(ts.skip(1)) {
        match call_len(ts.skip(2)) {
            Some(c) => if c + 2 < ts.len() && sym_first(ts.skip((c + 2) as int), Symbol::Semicolon) {
                Some(c + 3)
            } else {
                None
            },
            None => None,
        }
    } else {
        None
    }
}

/// `returnStatement`
#[verifier::opaque]
pub open spec fn return_len(ts: Seq<TokenView>) -> Option<nat> {
    if kw_first(ts, Keyword::Return) {
        if sym_first(ts.skip(1), Symbol::Semicolon) {
            Some(2)
        } else {
            match expr_len(ts.skip(1)) {
                Some(e) => if e + 1 < ts.len() && sym_first(ts.skip((e + 1) as int), Symbol::Semicolon) {
                    Some(e + 2)
                } else {
                    None
                },
                None => None,
            }
        }
    } else {
        None
    }
}

/// One statement, chosen by its keyword.
#[verifier::opaque]
pub open spec fn statement_len(ts: Seq<TokenView>) -> Option<nat>
    decreases ts.len(), 1int,
{
    if kw_first(ts, Keyword::Let) {
        let_len(ts)
    } else if kw_first(ts, Keyword::If) {
        if_len(ts)
    } else if kw_first(ts, Keyword::While) {
        while_len(ts)
    } else if kw_first(ts, Keyword::Do) {
        do_len(ts)
    } else if kw_first(ts, Keyword::Return) {
        return_len(ts)
    } else {
        None
    }
}

/// `statements`, up to the closing brace.
#[verifier::opaque]
pub open spec fn statements_len(ts: Seq<TokenView>) -> Option<nat>
    decreases ts.len(), 2int,
{
    if kw_first(ts, Keyword::Let) || kw_first(ts, Keyword::If) || kw_first(ts, Keyword::While)
        || kw_first(ts, Keyword::Do) || kw_first(ts, Keyword::Return) {
        match statement_len(ts) {
            Some(n) => if 1 <= n <= ts.len() {
                shift(n, statements_len(ts.skip(n as int)))
            } else {
                None
            },
            None => None,
        }
    } else if sym_first(ts, Symbol::RBrace) {
        Some(0)
    } else {
        None
    }
}

/// `subroutineBody := '{' varDec* statements '}'`
#[verifier::opaque]
pub open spec fn body_len(ts: Seq<TokenView>) -> Option<nat> {
    if sym_first(ts, Symbol::LBrace) {
        match var_decs_len(ts.skip(1)) {
            Some(a) => match statements_len(ts.skip((a + 1) as int)) {
                Some(s) => if a + s + 1 < ts.len() && sym_first(ts.skip((a + s + 1) as int), Symbol::RBrace) {
                    Some(a + s + 2)
                } else {
                    None
                },
                None => None,
            },
            None => None,
        }
    } else {
        None
    }
}

/// `subroutineDec`, its keyword having been seen.
#[verifier::opaque]
pub open spec fn subroutine_dec_len(ts: Seq<TokenView>) -> Option<nat> {
    if ts.len() >= 4 && (kw_first(ts.skip(1), Keyword::Void) || type_first(ts.skip(1))) && ident_first(ts.skip(2))
        && sym_first(ts.skip(3), Symbol::LParen) {
        match param_list_len(ts.skip(4)) {
            Some(p) => if p + 4 < ts.len() && sym_first(ts.skip((p + 4) as int), Symbol::RParen) {
                shift(p + 5, body_len(ts.skip((p + 5) as int)))
            } else {
                None
            },
            None => None,
        }
    } else {
        None
    }
}

/// `subroutineDec*`
#[verifier::opaque]
pub open spec fn subroutine_decs_len(ts: Seq<TokenView>) -> Option<nat>
    decreases ts.len(),
{
    if kw_first(ts, Keyword::Constructor) || kw_first(ts, Keyword::Method) || kw_first(ts, Keyword::Function) {
        match subroutine_dec_len(ts) {
            Some(n) => if 1 <= n <= ts.len() {
                shift(n, subroutine_decs_len(ts.skip(n as int)))
            } else {
                None
            },
            None => None,
        }
    } else {
        Some(0)
    }
}

/// `class := 'class' name '{' classVarDec* subroutineDec* '}'`
#[verifier::opaque]
pub open spec fn class_len(ts: Seq<TokenView>) -> Option<nat> {
    if ts.len() >= 3 && kw_first(ts, Keyword::Class) && ident_first(ts.skip(1)) && sym_first(ts.skip(2), Symbol::LBrace) {
        match class_var_decs_len(ts.skip(3)) {
            Some(a) => match subroutine_decs_len(ts.skip((a + 3) as int)) {
                Some(b) => if a + b + 3 < ts.len() && sym_first(ts.skip((a + b + 3) as int), Symbol::RBrace) {
                    Some(a + b + 4)
                } else {
                    None
                },
                None => None,
            },
            None => None,
        }
    } else {
        None
    }
}

} // verus!
verus! {
/// One step of `statements`.
pub proof fn lemma_statements_step(ts: Seq<TokenView>)
    ensures
        statements_len(ts) == if kw_first(ts, Keyword::Let) || kw_first(ts, Keyword::If) || kw_first(ts, Keyword::While)
            || kw_first(ts, Keyword::Do) || kw_first(ts, Keyword::Return) {
            match statement_len(ts) {
                Some(n) => if 1 <= n <= ts.len() {
                    shift(n, statements_len(ts.skip(n as int)))
                } else {
                    None
                },
                None => None,
            }
        } else if sym_first(ts, Symbol::RBrace) {
            Some(0)
        } else {
            None
        },
        statement_len(ts) == if kw_first(ts, Keyword::Let) {
            let_len(ts)
        } else if kw_first(ts, Keyword::If) {
            if_len(ts)
        } else if kw_first(ts, Keyword::While) {
            while_len(ts)
        } else if kw_first(ts, Keyword::Do) {
            do_len(ts)
        } else if kw_first(ts, Keyword::Return) {
            return_len(ts)
        } else {
            None
        },
{
    reveal(statements_len);
    reveal(statement_len);
    reveal(if_len);
    reveal(while_len);
}

} // verus!
