use vstd::prelude::*;
use std::collections::VecDeque;
use vstd::string::StringExecFns;
use crate::lexer::{Keyword, Symbol, Token, TokenView, same_kind, token_xml, views};
use crate::grammar::{index_len, statement_len, is_constant_token, is_op, is_type_token, block_len, call_len, class_len, class_var_dec_len, class_var_decs_len, cond_len, do_len, expr_len, expr_list_len, if_len, let_len, more_exprs_len, names_len, ops_len, param_list_len, params_tail_len, return_len, shift, statements_len, subroutine_dec_len, subroutine_decs_len, term_len, var_dec_len, var_decs_len, while_len, body_len};

verus! {

broadcast use {crate::text::lemma_concat_assoc, crate::grammar::lemma_skip_skip};

/// The token stream that the parser reads from the front.
pub struct TokenParser {
    pub tokens: VecDeque<Token>,
}

/// What can go wrong while parsing a token stream.
#[derive(Debug, Clone, Copy, PartialEq, Eq, Structural)]
pub enum ParseError {
    /// A token of another kind than the grammar allows here.
    UnexpectedToken,
    /// The tokens ran out before the construct was complete.
    UnexpectedEnd,
    /// Tokens are left after the class.
    TrailingTokens,
}

/// The grammar category of an inner node of the parse tree.
#[derive(Debug, Clone, Copy, PartialEq, Eq, Structural)]
pub enum NonTerminalType {
    Class,
    ClassVarDec,
    SubroutineDec,
    ParamList,
    SubroutineBody,
    VarDec,
    Statements,
    IfStatement,
    LetStatement,
    WhileStatement,
    DoStatement,
    ReturnStatement,
    ExpressionList,
    Expression,
    Term,
}

/// A node of the parse tree: a token, or a grammar category with its children.
#[derive(Debug)]
pub enum ProgramElement {
    Terminal(Token),
    NonTerminal(NonTerminalElement),
}

/// An inner node: its category and its children in source order, punctuation included.
#[derive(Debug)]
pub struct NonTerminalElement {
    pub nt_type: NonTerminalType,
    pub children: Vec<ProgramElement>,
}

/// The tokens at the leaves of `e`, left to right.
pub open spec fn leaves(e: ProgramElement) -> Seq<TokenView>
    decreases e,
{
    match e {
        ProgramElement::Terminal(t) => seq![t@],
        ProgramElement::NonTerminal(nt) => leaves_seq(nt.children@),
    }
}

/// The tokens at the leaves of the trees `cs`, left to right.
pub open spec fn leaves_seq(cs: Seq<ProgramElement>) -> Seq<TokenView>
    decreases cs,
{
    if cs.len() == 0 {
        Seq::empty()
    } else {
        leaves_seq(cs.subrange(0, cs.len() - 1)) + leaves(cs[cs.len() - 1])
    }
}

pub proof fn lemma_leaves_push(cs: Seq<ProgramElement>, e: ProgramElement)
    ensures
        leaves_seq(cs.push(e)) == leaves_seq(cs) + leaves(e),
{
    assert(cs.push(e).subrange(0, cs.len() as int) =~= cs);
}

pub proof fn lemma_leaves_append(a: Seq<ProgramElement>, b: Seq<ProgramElement>)
    ensures
        leaves_seq(a + b) == leaves_seq(a) + leaves_seq(b),
    decreases b.len(),
{
    if b.len() == 0 {
        assert(a + b =~= a);
    } else {
        let bl = b.subrange(0, b.len() - 1);
        lemma_leaves_append(a, bl);
        assert((a + b).subrange(0, (a + b).len() - 1) =~= a + bl);
    }
}

/// The tokens that `p` has not consumed yet.
pub open spec fn rest(p: &TokenParser) -> Seq<TokenView> {
    views(p.tokens@)
}

/// The leaves already attached to `node`, followed by what `p` has left: parsing moves
/// tokens from the second part to the first and never changes the whole.
pub open spec fn spelled(node: &NonTerminalElement, p: &TokenParser) -> Seq<TokenView> {
    leaves_seq(node.children@) + rest(p)
}

/// Whether a parse that succeeded or not (`ok`) matches the grammar's verdict `len` on the
/// tokens `before`, leaving `after`: it succeeds exactly when the tokens start with the
/// construct, and then consumes exactly the construct's tokens.
pub open spec fn parsed(ok: bool, before: Seq<TokenView>, after: Seq<TokenView>, len: Option<nat>) -> bool {
    &&& ok == len is Some
    &&& ok ==> len->0 <= before.len() && after == before.skip(len->0 as int)
}

/// Within a loop: `cur` is what is left of `ts0`, and the verdict `whole` on `ts0` is the
/// verdict `tail` on `cur`, shifted by what was consumed.
pub open spec fn resumes(ts0: Seq<TokenView>, cur: Seq<TokenView>, whole: Option<nat>, tail: Option<nat>) -> bool {
    &&& cur.len() <= ts0.len()
    &&& cur == ts0.skip(ts0.len() - cur.len())
    &&& whole == shift((ts0.len() - cur.len()) as nat, tail)
}

impl TokenParser {
    /// Takes the next token.
    pub fn consume_tok(&mut self) -> (r: Option<Token>)
        ensures
            match r {
                Some(t) => rest(old(self)) == seq![t@] + rest(final(self))
                    && rest(final(self)) == rest(old(self)).skip(1)
                    && final(self).tokens@.len() + 1 == old(self).tokens@.len(),
                None => rest(old(self)).len() == 0 && final(self).tokens@ == old(self).tokens@,
            },
            final(self).tokens@.len() <= old(self).tokens@.len(),
    {
        let r = self.tokens.pop_front();
        proof {
            if r is Some {
                assert(rest(old(self)) =~= seq![r->0@] + rest(self));
                assert(rest(self) =~= rest(old(self)).skip(1));
            }
        }
        r
    }

    /// The next token, without consuming it.
    pub fn peek_tok(&self) -> (r: Option<&Token>)
        ensures
            match r {
                Some(t) => rest(self).len() > 0 && rest(self)[0] == t@,
                None => rest(self).len() == 0,
            },
    {
        if self.tokens.len() == 0 {
            None
        } else {
            Some(&self.tokens[0])
        }
    }
}

impl ProgramElement {
    /// The leaf for a token that was read, or an error at the end of the tokens.
    pub fn new(tok: Option<Token>) -> (r: Result<ProgramElement, ParseError>)
        ensures
            match tok {
                Some(t) => r == Ok::<ProgramElement, ParseError>(ProgramElement::Terminal(t)),
                None => r == Err::<ProgramElement, ParseError>(ParseError::UnexpectedEnd),
            },
    {
        match tok {
            Some(t) => Ok(ProgramElement::Terminal(t)),
            None => Err(ParseError::UnexpectedEnd),
        }
    }
}

impl NonTerminalElement {
    /// A node of category `nt_type` with no children yet.
    pub fn new(nt_type: NonTerminalType) -> (r: NonTerminalElement)
        ensures
            r.nt_type == nt_type,
            r.children@.len() == 0,
    {
        NonTerminalElement { nt_type, children: Vec::new() }
    }

    /// Appends a child.
    pub fn add(&mut self, elem: ProgramElement)
        ensures
            final(self).nt_type == old(self).nt_type,
            final(self).children@ == old(self).children@.push(elem),
            leaves_seq(final(self).children@) == leaves_seq(old(self).children@) + leaves(elem),
    {
        proof {
            lemma_leaves_push(self.children@, elem);
        }
        self.children.push(elem);
    }

    /// Appends the children `v`, leaving `v` empty.
    pub fn add_vec(&mut self, v: &mut Vec<ProgramElement>)
        ensures
            final(self).nt_type == old(self).nt_type,
            final(self).children@ == old(self).children@ + old(v)@,
            leaves_seq(final(self).children@) == leaves_seq(old(self).children@) + leaves_seq(old(v)@),
            final(v)@.len() == 0,
    {
        proof {
            lemma_leaves_append(self.children@, v@);
        }
        self.children.append(v);
    }
}

} // verus!

verus! {


/// The element for a token read from the stream, if it is of the kind of `tok`.
fn match_tok(parsed_tok: Option<Token>, tok: Token) -> (r: Result<ProgramElement, ParseError>)
    ensures
        match parsed_tok {
            None => r == Err::<ProgramElement, ParseError>(ParseError::UnexpectedEnd),
            Some(t) => if same_kind(t@, tok@) {
                r == Ok::<ProgramElement, ParseError>(ProgramElement::Terminal(t))
            } else {
                r == Err::<ProgramElement, ParseError>(ParseError::UnexpectedToken)
            },
        },
{
    match parsed_tok {
        Some(t) => if t.same_kind(&tok) {
            Ok(ProgramElement::Terminal(t))
        } else {
            Err(ParseError::UnexpectedToken)
        },
        None => Err(ParseError::UnexpectedEnd),
    }
}

fn identifier() -> (r: Token)
    ensures
        r@ is Identifier,
{
    Token::Identifier(String::new())
}

fn sym(s: Symbol) -> (r: Token)
    ensures
        r@ == TokenView::Symbol(s),
{
    Token::Symbol(s)
}


/// The element for a declared type read from the stream.
#[verifier::rlimit(100)]
#[verifier::spinoff_prover]
fn handle_declared_type(tok: Option<Token>) -> (r: Result<ProgramElement, ParseError>)
    ensures
        match tok {
            None => r == Err::<ProgramElement, ParseError>(ParseError::UnexpectedEnd),
            Some(t) => if is_type_token(t@) {
                r == Ok::<ProgramElement, ParseError>(ProgramElement::Terminal(t))
            } else {
                r == Err::<ProgramElement, ParseError>(ParseError::UnexpectedToken)
            },
        },
{
    match tok {
        Some(Token::Keyword(k)) => match k {
            Keyword::Boolean | Keyword::Char | Keyword::Int => Ok(ProgramElement::Terminal(Token::Keyword(k))),
            _ => Err(ParseError::UnexpectedToken),
        },
        Some(Token::Identifier(s)) => Ok(ProgramElement::Terminal(Token::Identifier(s))),
        Some(_) => Err(ParseError::UnexpectedToken),
        None => Err(ParseError::UnexpectedEnd),
    }
}

fn push_elem(v: &mut Vec<ProgramElement>, e: ProgramElement)
    ensures
        final(v)@ == old(v)@.push(e),
        leaves_seq(final(v)@) == leaves_seq(old(v)@) + leaves(e),
{
    proof {
        lemma_leaves_push(v@, e);
    }
    v.push(e);
}

fn peek_is(parser: &TokenParser, tok: Token) -> (r: bool)
    ensures
        r == (rest(parser).len() > 0 && same_kind(rest(parser)[0], tok@)),
{
    match parser.peek_tok() {
        Some(t) => t.same_kind(&tok),
        None => false,
    }
}

/// `classVarDec := ('static'|'field') type name (',' name)* ';'`
#[verifier::rlimit(100)]
#[verifier::spinoff_prover]
fn handle_class_var_dec(parser: &mut TokenParser) -> (r: Result<ProgramElement, ParseError>)
    requires
        rest(old(parser)).len() > 0,
        rest(old(parser))[0] == TokenView::Keyword(Keyword::Static) || rest(old(parser))[0] == TokenView::Keyword(Keyword::Field),
    ensures
        r matches Ok(e) ==> class_var_dec_shaped(e),
        final(parser).tokens@.len() <= old(parser).tokens@.len(),
        r matches Ok(e) ==> rest(old(parser)) == leaves(e) + rest(final(parser)),
        parsed(r is Ok, rest(old(parser)), rest(final(parser)), class_var_dec_len(rest(old(parser)))),
{
    reveal(class_var_dec_len);
    reveal(names_len);
    proof {
        crate::grammar::lemma_skip_zero(rest(parser));
    }
    let ghost t0 = rest(parser);
    let mut class_var_dec = NonTerminalElement::new(NonTerminalType::ClassVarDec);
    let keyword = ProgramElement::new(parser.consume_tok())?;
    class_var_dec.add(keyword);
    let var_type = handle_declared_type(parser.consume_tok())?;
    class_var_dec.add(var_type);
    let var_name = match_tok(parser.consume_tok(), identifier())?;
    class_var_dec.add(var_name);
    assert(name_pairs(class_var_dec.children@)) by {
    }
    while peek_is(parser, sym(Symbol::Comma))
        invariant
            spelled(&class_var_dec, parser) == t0,
            t0 == rest(old(parser)),
            parser.tokens@.len() <= old(parser).tokens@.len(),
            resumes(t0, rest(parser), class_var_dec_len(t0), names_len(rest(parser))),
        class_var_dec.nt_type == NonTerminalType::ClassVarDec,
            is_keyword(class_var_dec.children@[0], Keyword::Static) || is_keyword(class_var_dec.children@[0], Keyword::Field),
            is_type_leaf(class_var_dec.children@[1]),
            is_ident(class_var_dec.children@[2]),
            name_pairs(class_var_dec.children@),
        decreases parser.tokens@.len(),
    {
        proof {
            reveal(class_var_dec_len);
            reveal(names_len);
        }
        let ghost before = class_var_dec.children@;
        let comma = ProgramElement::new(parser.consume_tok())?;
        class_var_dec.add(comma);
        let var_name = match_tok(parser.consume_tok(), identifier())?;
        proof {
            lemma_pairs_push(before, class_var_dec.children@.last(), var_name);
        }
        class_var_dec.add(var_name);
    }
    let semicolon = match_tok(parser.consume_tok(), sym(Symbol::Semicolon))?;
    proof {
        lemma_names_close(class_var_dec.children@, semicolon);
    }
    class_var_dec.add(semicolon);
    assert(class_var_dec_shaped(ProgramElement::NonTerminal(class_var_dec))) by {
    }
    Ok(ProgramElement::NonTerminal(class_var_dec))
}

/// `classVarDec*`: the declarations that start with `static` or `field`.
#[verifier::rlimit(100)]
#[verifier::spinoff_prover]
fn handle_class_var_decs(parser: &mut TokenParser) -> (r: Result<Vec<ProgramElement>, ParseError>)
    ensures
        r matches Ok(v) ==> forall|j: int| 0 <= j < v@.len() ==> class_var_dec_shaped(#[trigger] v@[j]),
        final(parser).tokens@.len() <= old(parser).tokens@.len(),
        r matches Ok(v) ==> rest(old(parser)) == leaves_seq(v@) + rest(final(parser)),
        parsed(r is Ok, rest(old(parser)), rest(final(parser)), class_var_decs_len(rest(old(parser)))),
{
    reveal(class_var_decs_len);
    proof {
        crate::grammar::lemma_skip_zero(rest(parser));
    }
    let ghost t0 = rest(parser);
    let mut decs: Vec<ProgramElement> = Vec::new();
    while peek_is(parser, Token::Keyword(Keyword::Static)) || peek_is(parser, Token::Keyword(Keyword::Field))
        invariant
            leaves_seq(decs@) + rest(parser) == t0,
            t0 == rest(old(parser)),
            parser.tokens@.len() <= old(parser).tokens@.len(),
            resumes(t0, rest(parser), class_var_decs_len(t0), class_var_decs_len(rest(parser))),
            forall|j: int| 0 <= j < decs@.len() ==> class_var_dec_shaped(#[trigger] decs@[j]),
        decreases parser.tokens@.len(),
    {
        proof {
            reveal(class_var_decs_len);
        }
        let len0 = parser.tokens.len();
        let class_var_dec = handle_class_var_dec(parser)?;
        push_elem(&mut decs, class_var_dec);
        if parser.tokens.len() == len0 {
            // a declaration always consumes its keyword
            return Err(ParseError::UnexpectedToken);
        }
    }
    Ok(decs)
}

/// `paramList := (type name (',' type name)*)?`, up to the closing parenthesis.
#[verifier::rlimit(100)]
#[verifier::spinoff_prover]
fn handle_param_list(parser: &mut TokenParser) -> (r: Result<ProgramElement, ParseError>)
    ensures
        r matches Ok(e) ==> param_list_shaped(e),
        final(parser).tokens@.len() <= old(parser).tokens@.len(),
        r matches Ok(e) ==> rest(old(parser)) == leaves(e) + rest(final(parser)),
        parsed(r is Ok, rest(old(parser)), rest(final(parser)), param_list_len(rest(old(parser)))),
{
    reveal(param_list_len);
    reveal(params_tail_len);
    proof {
        crate::grammar::lemma_skip_zero(rest(parser));
    }
    let ghost t0 = rest(parser);
    let mut param_list = NonTerminalElement::new(NonTerminalType::ParamList);
    if peek_is(parser, sym(Symbol::RParen)) {
        return Ok(ProgramElement::NonTerminal(param_list));
    }
    loop
        invariant
            spelled(&param_list, parser) == t0,
            t0 == rest(old(parser)),
            parser.tokens@.len() <= old(parser).tokens@.len(),
            resumes(t0, rest(parser), param_list_len(t0), params_tail_len(rest(parser))),
            param_list.nt_type == NonTerminalType::ParamList,
            param_list.children@.len() % 3 == 0,
            forall|j: int| 0 <= j < param_list.children@.len() ==> if j % 3 == 0 {
                is_type_leaf(#[trigger] param_list.children@[j])
            } else if j % 3 == 1 {
                is_ident(param_list.children@[j])
            } else {
                is_symbol(param_list.children@[j], Symbol::Comma)
            },
        decreases parser.tokens@.len(),
    {
        proof {
            reveal(param_list_len);
            reveal(params_tail_len);
        }
        let ghost cur = rest(parser);
        let var_type = handle_declared_type(parser.consume_tok())?;
        param_list.add(var_type);
        let var_name = match_tok(parser.consume_tok(), identifier())?;
        param_list.add(var_name);
        if peek_is(parser, sym(Symbol::Comma)) {
            let comma = ProgramElement::new(parser.consume_tok())?;
            param_list.add(comma);
        } else {
            assert(params_tail_len(cur) == Some(2nat));
            return Ok(ProgramElement::NonTerminal(param_list));
        }
    }
}

/// `varDec := 'var' type name (',' name)* ';'`
#[verifier::rlimit(100)]
#[verifier::spinoff_prover]
fn handle_var_dec(parser: &mut TokenParser) -> (r: Result<ProgramElement, ParseError>)
    ensures
        r matches Ok(e) ==> var_dec_shaped(e),
        final(parser).tokens@.len() <= old(parser).tokens@.len(),
        r matches Ok(e) ==> rest(old(parser)) == leaves(e) + rest(final(parser)),
        r is Ok ==> final(parser).tokens@.len() < old(parser).tokens@.len(),
        parsed(r is Ok, rest(old(parser)), rest(final(parser)), var_dec_len(rest(old(parser)))),
{
    reveal(var_dec_len);
    reveal(names_len);
    proof {
        crate::grammar::lemma_skip_zero(rest(parser));
    }
    let ghost t0 = rest(parser);
    let mut var_dec = NonTerminalElement::new(NonTerminalType::VarDec);
    let keyword = match_tok(parser.consume_tok(), Token::Keyword(Keyword::Var))?;
    var_dec.add(keyword);
    let var_type = handle_declared_type(parser.consume_tok())?;
    var_dec.add(var_type);
    let var_name = match_tok(parser.consume_tok(), identifier())?;
    var_dec.add(var_name);
    assert(name_pairs(var_dec.children@)) by {
    }
    while peek_is(parser, sym(Symbol::Comma))
        invariant
            spelled(&var_dec, parser) == t0,
            t0 == rest(old(parser)),
            parser.tokens@.len() < old(parser).tokens@.len(),
            resumes(t0, rest(parser), var_dec_len(t0), names_len(rest(parser))),
        var_dec.nt_type == NonTerminalType::VarDec,
            is_keyword(var_dec.children@[0], Keyword::Var),
            is_type_leaf(var_dec.children@[1]),
            is_ident(var_dec.children@[2]),
            name_pairs(var_dec.children@),
        decreases parser.tokens@.len(),
    {
        proof {
            reveal(var_dec_len);
            reveal(names_len);
        }
        let ghost before = var_dec.children@;
        let comma = ProgramElement::new(parser.consume_tok())?;
        var_dec.add(comma);
        let var_name = match_tok(parser.consume_tok(), identifier())?;
        proof {
            lemma_pairs_push(before, var_dec.children@.last(), var_name);
        }
        var_dec.add(var_name);
    }
    let semicolon = match_tok(parser.consume_tok(), sym(Symbol::Semicolon))?;
    proof {
        lemma_names_close(var_dec.children@, semicolon);
    }
    var_dec.add(semicolon);
    assert(var_dec_shaped(ProgramElement::NonTerminal(var_dec))) by {
    }
    Ok(ProgramElement::NonTerminal(var_dec))
}

/// `varDec*`: the declarations that start with `var`.
#[verifier::rlimit(100)]
#[verifier::spinoff_prover]
fn handle_var_decs(parser: &mut TokenParser) -> (r: Result<Vec<ProgramElement>, ParseError>)
    ensures
        r matches Ok(v) ==> forall|j: int| 0 <= j < v@.len() ==> var_dec_shaped(#[trigger] v@[j]),
        final(parser).tokens@.len() <= old(parser).tokens@.len(),
        r matches Ok(v) ==> rest(old(parser)) == leaves_seq(v@) + rest(final(parser)),
        parsed(r is Ok, rest(old(parser)), rest(final(parser)), var_decs_len(rest(old(parser)))),
{
    proof {
        crate::grammar::lemma_skip_zero(rest(parser));
    }
    let ghost t0 = rest(parser);
    let mut decs: Vec<ProgramElement> = Vec::new();
    while peek_is(parser, Token::Keyword(Keyword::Var))
        invariant
            leaves_seq(decs@) + rest(parser) == t0,
            t0 == rest(old(parser)),
            parser.tokens@.len() <= old(parser).tokens@.len(),
            resumes(t0, rest(parser), var_decs_len(t0), var_decs_len(rest(parser))),
            forall|j: int| 0 <= j < decs@.len() ==> var_dec_shaped(#[trigger] decs@[j]),
        decreases parser.tokens@.len(),
    {
        proof {
            reveal(var_decs_len);
        }
        let var_dec = handle_var_dec(parser)?;
        push_elem(&mut decs, var_dec);
    }
    proof {
        reveal(var_decs_len);
    }
    Ok(decs)
}

/// `subroutineBody := '{' varDec* statements '}'`
#[verifier::rlimit(100)]
#[verifier::spinoff_prover]
fn handle_subroutine_body(parser: &mut TokenParser) -> (r: Result<ProgramElement, ParseError>)
    ensures
        r matches Ok(e) ==> body_shaped(e),
        final(parser).tokens@.len() <= old(parser).tokens@.len(),
        r matches Ok(e) ==> rest(old(parser)) == leaves(e) + rest(final(parser)),
        parsed(r is Ok, rest(old(parser)), rest(final(parser)), body_len(rest(old(parser)))),
{
    reveal(body_len);
    let ghost t0 = rest(parser);
    let mut subroutine_body = NonTerminalElement::new(NonTerminalType::SubroutineBody);
    let l_brace = match_tok(parser.consume_tok(), sym(Symbol::LBrace))?;
    subroutine_body.add(l_brace);
    let mut var_decs = handle_var_decs(parser)?;
    subroutine_body.add_vec(&mut var_decs);
    let ghost a = var_decs_len(t0.skip(1))->0;
    assert(rest(parser) == t0.skip(a + 1int));
    let statements = handle_statements(parser)?;
    subroutine_body.add(statements);
    let ghost b = statements_len(t0.skip(a + 1int))->0;
    assert(rest(parser) == t0.skip(a + b + 1int));
    let r_brace = match_tok(parser.consume_tok(), sym(Symbol::RBrace))?;
    subroutine_body.add(r_brace);
    Ok(ProgramElement::NonTerminal(subroutine_body))
}

/// `subroutineDec := ('constructor'|'function'|'method') ('void'|type) name '(' paramList ')' subroutineBody`
#[verifier::rlimit(100)]
#[verifier::spinoff_prover]
fn handle_subroutine_dec(parser: &mut TokenParser) -> (r: Result<ProgramElement, ParseError>)
    requires
        rest(old(parser)).len() > 0,
        rest(old(parser))[0] == TokenView::Keyword(Keyword::Constructor)
            || rest(old(parser))[0] == TokenView::Keyword(Keyword::Method)
            || rest(old(parser))[0] == TokenView::Keyword(Keyword::Function),
    ensures
        r matches Ok(e) ==> subroutine_shaped(e),
        final(parser).tokens@.len() <= old(parser).tokens@.len(),
        r matches Ok(e) ==> rest(old(parser)) == leaves(e) + rest(final(parser)),
        r is Ok ==> final(parser).tokens@.len() < old(parser).tokens@.len(),
        parsed(r is Ok, rest(old(parser)), rest(final(parser)), subroutine_dec_len(rest(old(parser)))),
{
    reveal(subroutine_dec_len);
    let ghost t0 = rest(parser);
    let mut subroutine_dec = NonTerminalElement::new(NonTerminalType::SubroutineDec);
    let keyword = ProgramElement::new(parser.consume_tok())?;
    subroutine_dec.add(keyword);
    let subroutine_type = if peek_is(parser, Token::Keyword(Keyword::Void)) {
        ProgramElement::new(parser.consume_tok())?
    } else {
        handle_declared_type(parser.consume_tok())?
    };
    subroutine_dec.add(subroutine_type);
    let subroutine_name = match_tok(parser.consume_tok(), identifier())?;
    subroutine_dec.add(subroutine_name);
    let l_paren = match_tok(parser.consume_tok(), sym(Symbol::LParen))?;
    subroutine_dec.add(l_paren);
    assert(rest(parser) == t0.skip(4));
    let param_list = handle_param_list(parser)?;
    subroutine_dec.add(param_list);
    let ghost p = param_list_len(t0.skip(4))->0;
    assert(rest(parser) == t0.skip(p + 4int));
    let r_paren = match_tok(parser.consume_tok(), sym(Symbol::RParen))?;
    subroutine_dec.add(r_paren);
    assert(rest(parser) == t0.skip(p + 5int));
    let subroutine_body = handle_subroutine_body(parser)?;
    subroutine_dec.add(subroutine_body);
    Ok(ProgramElement::NonTerminal(subroutine_dec))
}

/// `subroutineDec*`: the declarations that start with `constructor`, `method` or `function`.
#[verifier::rlimit(100)]
#[verifier::spinoff_prover]
fn handle_subroutine_decs(parser: &mut TokenParser) -> (r: Result<Vec<ProgramElement>, ParseError>)
    ensures
        r matches Ok(v) ==> forall|j: int| 0 <= j < v@.len() ==> subroutine_shaped(#[trigger] v@[j]),
        final(parser).tokens@.len() <= old(parser).tokens@.len(),
        r matches Ok(v) ==> rest(old(parser)) == leaves_seq(v@) + rest(final(parser)),
        parsed(r is Ok, rest(old(parser)), rest(final(parser)), subroutine_decs_len(rest(old(parser)))),
{
    proof {
        crate::grammar::lemma_skip_zero(rest(parser));
    }
    let ghost t0 = rest(parser);
    let mut decs: Vec<ProgramElement> = Vec::new();
    while peek_is(parser, Token::Keyword(Keyword::Constructor)) || peek_is(parser, Token::Keyword(Keyword::Method))
        || peek_is(parser, Token::Keyword(Keyword::Function))
        invariant
            leaves_seq(decs@) + rest(parser) == t0,
            t0 == rest(old(parser)),
            parser.tokens@.len() <= old(parser).tokens@.len(),
            resumes(t0, rest(parser), subroutine_decs_len(t0), subroutine_decs_len(rest(parser))),
            forall|j: int| 0 <= j < decs@.len() ==> subroutine_shaped(#[trigger] decs@[j]),
        decreases parser.tokens@.len(),
    {
        proof {
            reveal(subroutine_decs_len);
        }
        let subroutine_dec = handle_subroutine_dec(parser)?;
        push_elem(&mut decs, subroutine_dec);
    }
    proof {
        reveal(subroutine_decs_len);
    }
    Ok(decs)
}

/// Parses one class: `'class' name '{' classVarDec* subroutineDec* '}'`. Tokens after
/// the closing brace are left in the stream.
#[verifier::rlimit(100)]
#[verifier::spinoff_prover]
pub fn handle_class(parser: &mut TokenParser) -> (r: Result<NonTerminalElement, ParseError>)
    ensures
        r matches Ok(c) ==> class_shaped(c),
        r matches Ok(c) ==> rest(old(parser)) == leaves(ProgramElement::NonTerminal(c)) + rest(final(parser)),
        r matches Ok(c) ==> c.nt_type == NonTerminalType::Class,
        parsed(r is Ok, rest(old(parser)), rest(final(parser)), class_len(rest(old(parser)))),
{
    reveal(class_len);
    let ghost t0 = rest(parser);
    let mut class = NonTerminalElement::new(NonTerminalType::Class);
    let class_keyword = match_tok(parser.consume_tok(), Token::Keyword(Keyword::Class))?;
    class.add(class_keyword);
    let class_name = match_tok(parser.consume_tok(), identifier())?;
    class.add(class_name);
    let l_brace = match_tok(parser.consume_tok(), sym(Symbol::LBrace))?;
    class.add(l_brace);
    assert(rest(parser) == t0.skip(3));
    let mut class_var_decs = handle_class_var_decs(parser)?;
    class.add_vec(&mut class_var_decs);
    let ghost a = class_var_decs_len(t0.skip(3))->0;
    assert(rest(parser) == t0.skip(a + 3int));
    let mut subroutine_decs = handle_subroutine_decs(parser)?;
    class.add_vec(&mut subroutine_decs);
    let ghost b = subroutine_decs_len(t0.skip(a + 3int))->0;
    assert(rest(parser) == t0.skip(a + b + 3int));
    let r_brace = match_tok(parser.consume_tok(), sym(Symbol::RBrace))?;
    class.add(r_brace);
    Ok(class)
}


/// Whether `tok` is a binary operator.
fn is_operation(tok: &Token) -> (r: bool)
    ensures
        r == is_op(tok@),
{
    match tok {
        Token::Symbol(Symbol::Add) | Token::Symbol(Symbol::Minus) | Token::Symbol(Symbol::Mult)
        | Token::Symbol(Symbol::Division) | Token::Symbol(Symbol::And) | Token::Symbol(Symbol::Or)
        | Token::Symbol(Symbol::LessThan) | Token::Symbol(Symbol::GreaterThan)
        | Token::Symbol(Symbol::Equal) => true,
        _ => false,
    }
}

/// The rest of a call after its first name: `'(' expressionList ')'` or
/// `'.' name '(' expressionList ')'`.
#[verifier::rlimit(100)]
#[verifier::spinoff_prover]
fn handle_subroutine_call(parser: &mut TokenParser) -> (r: Result<Vec<ProgramElement>, ParseError>)
    ensures
        r matches Ok(v) ==> call_shaped(v@, 0, v@.len() as int),
        final(parser).tokens@.len() <= old(parser).tokens@.len(),
        r matches Ok(v) ==> rest(old(parser)) == leaves_seq(v@) + rest(final(parser)),
        parsed(r is Ok, rest(old(parser)), rest(final(parser)), call_len(rest(old(parser)))),
    decreases old(parser).tokens@.len(), 0nat,
{
    reveal(call_len);
    reveal(expr_list_len);
    let ghost t0 = rest(parser);
    let mut call: Vec<ProgramElement> = Vec::new();
    let first = parser.consume_tok();
    match first {
        Some(Token::Symbol(Symbol::LParen)) => {
            push_elem(&mut call, ProgramElement::Terminal(Token::Symbol(Symbol::LParen)));
        },
        Some(Token::Symbol(Symbol::Dot)) => {
            push_elem(&mut call, ProgramElement::Terminal(Token::Symbol(Symbol::Dot)));
            let subroutine_name = match_tok(parser.consume_tok(), identifier())?;
            push_elem(&mut call, subroutine_name);
            let l_paren = match_tok(parser.consume_tok(), sym(Symbol::LParen))?;
            push_elem(&mut call, l_paren);
        },
        Some(_) => {
            return Err(ParseError::UnexpectedToken);
        },
        None => {
            return Err(ParseError::UnexpectedEnd);
        },
    }
    let ghost k = t0.len() - rest(parser).len();
    assert(rest(parser) == t0.skip(k));
    let expr_list = handle_expression_list(parser)?;
    push_elem(&mut call, expr_list);
    let ghost l = expr_list_len(t0.skip(k))->0;
    assert(rest(parser) == t0.skip(k + l));
    let r_paren = match_tok(parser.consume_tok(), sym(Symbol::RParen))?;
    push_elem(&mut call, r_paren);
    Ok(call)
}


fn is_constant(t: &Token) -> (r: bool)
    ensures
        r == is_constant_token(t@),
{
    match t {
        Token::IntConst(_) | Token::StringConst(_) => true,
        Token::Keyword(Keyword::True) | Token::Keyword(Keyword::False) | Token::Keyword(Keyword::Null)
        | Token::Keyword(Keyword::This) => true,
        _ => false,
    }
}

/// `term := constant | ('-'|'~') term | name ('[' expression ']' | subroutineCall)? | '(' expression ')'`
#[verifier::rlimit(100)]
#[verifier::spinoff_prover]
fn handle_term(parser: &mut TokenParser) -> (r: Result<ProgramElement, ParseError>)
    ensures
        r matches Ok(e) ==> term_shaped(e),
        final(parser).tokens@.len() <= old(parser).tokens@.len(),
        r matches Ok(e) ==> rest(old(parser)) == leaves(e) + rest(final(parser)),
        r is Ok ==> final(parser).tokens@.len() < old(parser).tokens@.len(),
        parsed(r is Ok, rest(old(parser)), rest(final(parser)), term_len(rest(old(parser)))),
    decreases old(parser).tokens@.len(), 0nat,
{
    reveal(term_len);
    reveal(expr_len);
    reveal(call_len);
    let ghost t0 = rest(parser);
    let mut term = NonTerminalElement::new(NonTerminalType::Term);
    let first = parser.consume_tok();
    let t = match first {
        Some(t) => t,
        None => {
            return Err(ParseError::UnexpectedEnd);
        },
    };
    if is_constant(&t) {
        term.add(ProgramElement::Terminal(t));
    } else if t.same_kind(&sym(Symbol::Minus)) || t.same_kind(&sym(Symbol::Not)) {
        term.add(ProgramElement::Terminal(t));
        let next_term = handle_term(parser)?;
        term.add(next_term);
    } else if t.same_kind(&identifier()) {
        term.add(ProgramElement::Terminal(t));
        if peek_is(parser, sym(Symbol::LBrack)) {
            let l_brack = ProgramElement::new(parser.consume_tok())?;
            term.add(l_brack);
            assert(rest(parser) == t0.skip(2));
            let expr = handle_expression(parser)?;
            term.add(expr);
            let ghost e = expr_len(t0.skip(2))->0;
            assert(rest(parser) == t0.skip(e + 2int));
            let r_brack = match_tok(parser.consume_tok(), sym(Symbol::RBrack))?;
            term.add(r_brack);
        } else if peek_is(parser, sym(Symbol::LParen)) || peek_is(parser, sym(Symbol::Dot)) {
            let ghost head = term.children@;
            let mut subroutine_call = handle_subroutine_call(parser)?;
            let ghost v = subroutine_call@;
            term.add_vec(&mut subroutine_call);
            proof {
                let cs = term.children@;
                assert(cs == head + v);
                assert(forall|k: int| 0 <= k < v.len() ==> cs[k + 1] == v[k]);
                assert(call_shaped(cs, 1, cs.len() as int));
            }
        }
    } else if t.same_kind(&sym(Symbol::LParen)) {
        term.add(ProgramElement::Terminal(t));
        let expr = handle_expression(parser)?;
        term.add(expr);
        let ghost e = expr_len(t0.skip(1))->0;
        assert(rest(parser) == t0.skip(e + 1int));
        let r_paren = match_tok(parser.consume_tok(), sym(Symbol::RParen))?;
        term.add(r_paren);
    } else {
        return Err(ParseError::UnexpectedToken);
    }
    assert(term_shaped(ProgramElement::NonTerminal(term)));
    Ok(ProgramElement::NonTerminal(term))
}

/// `expressionList := (expression (',' expression)*)?`, up to the closing parenthesis.
#[verifier::rlimit(100)]
#[verifier::spinoff_prover]
fn handle_expression_list(parser: &mut TokenParser) -> (r: Result<ProgramElement, ParseError>)
    ensures
        r matches Ok(e) ==> list_shaped(e),
        final(parser).tokens@.len() <= old(parser).tokens@.len(),
        r matches Ok(e) ==> rest(old(parser)) == leaves(e) + rest(final(parser)),
        parsed(r is Ok, rest(old(parser)), rest(final(parser)), expr_list_len(rest(old(parser)))),
    decreases old(parser).tokens@.len(), 2nat,
{
    reveal(expr_list_len);
    reveal(expr_len);
    reveal(more_exprs_len);
    let ghost t0 = rest(parser);
    let mut expr_list = NonTerminalElement::new(NonTerminalType::ExpressionList);
    if peek_is(parser, sym(Symbol::RParen)) {
        proof {
            crate::grammar::lemma_skip_zero(t0);
        }
        return Ok(ProgramElement::NonTerminal(expr_list));
    }
    let expr = handle_expression(parser)?;
    expr_list.add(expr);
    while peek_is(parser, sym(Symbol::Comma))
        invariant
            spelled(&expr_list, parser) == t0,
            t0 == rest(old(parser)),
            parser.tokens@.len() < old(parser).tokens@.len(),
            resumes(t0, rest(parser), expr_list_len(t0), more_exprs_len(rest(parser))),
            expr_list.nt_type == NonTerminalType::ExpressionList,
            expr_list.children@.len() % 2 == 1,
            forall|j: int| 0 <= j < expr_list.children@.len() ==> if j % 2 == 0 {
                expr_shaped(#[trigger] expr_list.children@[j])
            } else {
                is_symbol(expr_list.children@[j], Symbol::Comma)
            },
        decreases parser.tokens@.len(),
    {
        proof {
            reveal(expr_list_len);
            reveal(expr_len);
            reveal(more_exprs_len);
        }
        let comma = ProgramElement::new(parser.consume_tok())?;
        expr_list.add(comma);
        let expr = handle_expression(parser)?;
        expr_list.add(expr);
    }
    Ok(ProgramElement::NonTerminal(expr_list))
}

/// `expression := term (op term)*`
#[verifier::rlimit(100)]
#[verifier::spinoff_prover]
fn handle_expression(parser: &mut TokenParser) -> (r: Result<ProgramElement, ParseError>)
    ensures
        r matches Ok(e) ==> expr_shaped(e),
        final(parser).tokens@.len() <= old(parser).tokens@.len(),
        r matches Ok(e) ==> rest(old(parser)) == leaves(e) + rest(final(parser)),
        r is Ok ==> final(parser).tokens@.len() < old(parser).tokens@.len(),
        parsed(r is Ok, rest(old(parser)), rest(final(parser)), expr_len(rest(old(parser)))),
    decreases old(parser).tokens@.len(), 1nat,
{
    reveal(expr_len);
    reveal(term_len);
    reveal(ops_len);
    let ghost t0 = rest(parser);
    let mut expression = NonTerminalElement::new(NonTerminalType::Expression);
    let term = handle_term(parser)?;
    expression.add(term);
    while peek_is_op(parser)
        invariant
            spelled(&expression, parser) == t0,
            t0 == rest(old(parser)),
            parser.tokens@.len() < old(parser).tokens@.len(),
            resumes(t0, rest(parser), expr_len(t0), ops_len(rest(parser))),
            expression.nt_type == NonTerminalType::Expression,
            expression.children@.len() % 2 == 1,
            forall|j: int| 0 <= j < expression.children@.len() ==> if j % 2 == 0 {
                term_shaped(#[trigger] expression.children@[j])
            } else {
                is_op_leaf(expression.children@[j])
            },
        decreases parser.tokens@.len(),
    {
        proof {
            reveal(expr_len);
            reveal(term_len);
            reveal(ops_len);
        }
        let op = ProgramElement::new(parser.consume_tok())?;
        expression.add(op);
        let term = handle_term(parser)?;
        expression.add(term);
    }
    Ok(ProgramElement::NonTerminal(expression))
}

fn peek_is_op(parser: &TokenParser) -> (r: bool)
    ensures
        r == (rest(parser).len() > 0 && is_op(rest(parser)[0])),
{
    match parser.peek_tok() {
        Some(t) => is_operation(t),
        None => false,
    }
}

/// `letStatement := 'let' name ('[' expression ']')? '=' expression ';'`
#[verifier::rlimit(100)]
#[verifier::spinoff_prover]
fn handle_let_statement(parser: &mut TokenParser) -> (r: Result<ProgramElement, ParseError>)
    ensures
        r matches Ok(e) ==> stmt_shaped(e),
        final(parser).tokens@.len() <= old(parser).tokens@.len(),
        r matches Ok(e) ==> rest(old(parser)) == leaves(e) + rest(final(parser)),
        r is Ok ==> final(parser).tokens@.len() < old(parser).tokens@.len(),
        parsed(r is Ok, rest(old(parser)), rest(final(parser)), let_len(rest(old(parser)))),
{
    reveal(let_len);
    let ghost t0 = rest(parser);
    let mut let_statement = NonTerminalElement::new(NonTerminalType::LetStatement);
    let keyword = match_tok(parser.consume_tok(), Token::Keyword(Keyword::Let))?;
    let_statement.add(keyword);
    let var_name = match_tok(parser.consume_tok(), identifier())?;
    let_statement.add(var_name);
    assert(rest(parser) == t0.skip(2));
    let ghost c2 = let_statement.children@;
    handle_index(parser, &mut let_statement)?;
    let ghost c3 = let_statement.children@;
    assert(c3.len() == 2 || c3.len() == 5);
    assert(c3[0] == c2[0] && c3[1] == c2[1]) by {
        if c3.len() != c2.len() {
            assert(c3.subrange(0, 2) == c2);
        }
    }
    let ghost a = index_len(t0.skip(2))->0;
    assert(rest(parser) == t0.skip(a + 2int));
    let equal = match_tok(parser.consume_tok(), sym(Symbol::Equal))?;
    let_statement.add(equal);
    let expr = handle_expression(parser)?;
    let_statement.add(expr);
    let ghost e2 = expr_len(t0.skip(a + 3int))->0;
    assert(rest(parser) == t0.skip(a + e2 + 3int));
    let semicolon = match_tok(parser.consume_tok(), sym(Symbol::Semicolon))?;
    let_statement.add(semicolon);
    assert(stmt_shaped(ProgramElement::NonTerminal(let_statement)));
    Ok(ProgramElement::NonTerminal(let_statement))
}

/// `('[' expression ']')?`, appended to `node`.
#[verifier::rlimit(100)]
#[verifier::spinoff_prover]
fn handle_index(parser: &mut TokenParser, node: &mut NonTerminalElement) -> (r: Result<(), ParseError>)
    ensures
        r is Ok ==> final(node).children@ == old(node).children@ || (
            final(node).children@.len() == old(node).children@.len() + 3
            && final(node).children@.subrange(0, old(node).children@.len() as int) == old(node).children@
            && is_symbol(final(node).children@[old(node).children@.len() as int], Symbol::LBrack)
            && expr_shaped(final(node).children@[old(node).children@.len() + 1int])
            && is_symbol(final(node).children@[old(node).children@.len() + 2int], Symbol::RBrack)),
        final(parser).tokens@.len() <= old(parser).tokens@.len(),
        final(node).nt_type == old(node).nt_type,
        r is Ok ==> spelled(final(node), final(parser)) == spelled(old(node), old(parser)),
        parsed(r is Ok, rest(old(parser)), rest(final(parser)), index_len(rest(old(parser)))),
{
    reveal(index_len);
    let ghost t0 = rest(parser);
    if peek_is(parser, sym(Symbol::LBrack)) {
        let l_brack = ProgramElement::new(parser.consume_tok())?;
        node.add(l_brack);
        let expr = handle_expression(parser)?;
        node.add(expr);
        let ghost e = expr_len(t0.skip(1))->0;
        assert(rest(parser) == t0.skip(e + 1int));
        let r_brack = match_tok(parser.consume_tok(), sym(Symbol::RBrack))?;
        node.add(r_brack);
    } else {
        proof {
            crate::grammar::lemma_skip_zero(t0);
        }
    }
    Ok(())
}

/// `'{' statements '}'`, appended to `node`.
#[verifier::rlimit(100)]
#[verifier::spinoff_prover]
fn handle_block(parser: &mut TokenParser, node: &mut NonTerminalElement) -> (r: Result<(), ParseError>)
    ensures
        r is Ok ==> final(node).children@.len() == old(node).children@.len() + 3
            && final(node).children@.subrange(0, old(node).children@.len() as int) == old(node).children@
            && is_symbol(final(node).children@[old(node).children@.len() as int], Symbol::LBrace)
            && stmts_shaped(final(node).children@[old(node).children@.len() + 1int])
            && is_symbol(final(node).children@[old(node).children@.len() + 2int], Symbol::RBrace),
        final(parser).tokens@.len() <= old(parser).tokens@.len(),
        final(node).nt_type == old(node).nt_type,
        r is Ok ==> spelled(final(node), final(parser)) == spelled(old(node), old(parser)),
        r is Ok ==> final(parser).tokens@.len() < old(parser).tokens@.len(),
        parsed(r is Ok, rest(old(parser)), rest(final(parser)), block_len(rest(old(parser)))),
    decreases old(parser).tokens@.len(), 0nat,
{
    reveal(block_len);
    reveal(statements_len);
    let ghost t0 = rest(parser);
    let l_brace = match_tok(parser.consume_tok(), sym(Symbol::LBrace))?;
    node.add(l_brace);
    let statements = handle_statements(parser)?;
    node.add(statements);
    let ghost n = statements_len(t0.skip(1))->0;
    assert(rest(parser) == t0.skip(n + 1int));
    let r_brace = match_tok(parser.consume_tok(), sym(Symbol::RBrace))?;
    node.add(r_brace);
    Ok(())
}

/// `'(' expression ')'`, appended to `node`.
#[verifier::rlimit(100)]
#[verifier::spinoff_prover]
fn handle_condition(parser: &mut TokenParser, node: &mut NonTerminalElement) -> (r: Result<(), ParseError>)
    ensures
        r is Ok ==> final(node).children@.len() == old(node).children@.len() + 3
            && final(node).children@.subrange(0, old(node).children@.len() as int) == old(node).children@
            && is_symbol(final(node).children@[old(node).children@.len() as int], Symbol::LParen)
            && expr_shaped(final(node).children@[old(node).children@.len() + 1int])
            && is_symbol(final(node).children@[old(node).children@.len() + 2int], Symbol::RParen),
        final(parser).tokens@.len() <= old(parser).tokens@.len(),
        final(node).nt_type == old(node).nt_type,
        r is Ok ==> spelled(final(node), final(parser)) == spelled(old(node), old(parser)),
        parsed(r is Ok, rest(old(parser)), rest(final(parser)), cond_len(rest(old(parser)))),
{
    reveal(cond_len);
    let ghost t0 = rest(parser);
    let l_paren = match_tok(parser.consume_tok(), sym(Symbol::LParen))?;
    node.add(l_paren);
    let expr = handle_expression(parser)?;
    node.add(expr);
    let ghost e = expr_len(t0.skip(1))->0;
    assert(rest(parser) == t0.skip(e + 1int));
    let r_paren = match_tok(parser.consume_tok(), sym(Symbol::RParen))?;
    node.add(r_paren);
    Ok(())
}

/// `ifStatement := 'if' '(' expression ')' '{' statements '}' ('else' '{' statements '}')?`
#[verifier::rlimit(100)]
#[verifier::spinoff_prover]
fn handle_if_statement(parser: &mut TokenParser) -> (r: Result<ProgramElement, ParseError>)
    ensures
        r matches Ok(e) ==> stmt_shaped(e),
        final(parser).tokens@.len() <= old(parser).tokens@.len(),
        r matches Ok(e) ==> rest(old(parser)) == leaves(e) + rest(final(parser)),
        r is Ok ==> final(parser).tokens@.len() < old(parser).tokens@.len(),
        parsed(r is Ok, rest(old(parser)), rest(final(parser)), if_len(rest(old(parser)))),
    decreases old(parser).tokens@.len(), 0nat,
{
    reveal(if_len);
    reveal(block_len);
    let ghost t0 = rest(parser);
    let mut if_statement = NonTerminalElement::new(NonTerminalType::IfStatement);
    let keyword = match_tok(parser.consume_tok(), Token::Keyword(Keyword::If))?;
    if_statement.add(keyword);
    handle_condition(parser, &mut if_statement)?;
    let ghost c = cond_len(t0.skip(1))->0;
    assert(rest(parser) == t0.skip(c + 1int));
    let ghost c1 = if_statement.children@;
    handle_block(parser, &mut if_statement)?;
    let ghost c2 = if_statement.children@;
    assert(c2[0] == c1[0] && c2[1] == c1[1] && c2[2] == c1[2] && c2[3] == c1[3]) by {
        assert(c2.subrange(0, 4) == c1);
    }
    let ghost b = block_len(t0.skip(c + 1int))->0;
    assert(rest(parser) == t0.skip(c + b + 1int));
    if peek_is(parser, Token::Keyword(Keyword::Else)) {
        let else_keyword = ProgramElement::new(parser.consume_tok())?;
        if_statement.add(else_keyword);
        assert(rest(parser) == t0.skip(c + b + 2int));
        let ghost c3 = if_statement.children@;
        handle_block(parser, &mut if_statement)?;
        let ghost c4 = if_statement.children@;
        assert(forall|k: int| 0 <= k < 8 ==> c4[k] == c3[k]) by {
            assert(c4.subrange(0, 8) == c3);
        }
        assert(stmt_shaped(ProgramElement::NonTerminal(if_statement)));
    } else {
        assert(stmt_shaped(ProgramElement::NonTerminal(if_statement)));
    }
    Ok(ProgramElement::NonTerminal(if_statement))
}

/// `whileStatement := 'while' '(' expression ')' '{' statements '}'`
#[verifier::rlimit(100)]
#[verifier::spinoff_prover]
fn handle_while_statement(parser: &mut TokenParser) -> (r: Result<ProgramElement, ParseError>)
    ensures
        r matches Ok(e) ==> stmt_shaped(e),
        final(parser).tokens@.len() <= old(parser).tokens@.len(),
        r matches Ok(e) ==> rest(old(parser)) == leaves(e) + rest(final(parser)),
        r is Ok ==> final(parser).tokens@.len() < old(parser).tokens@.len(),
        parsed(r is Ok, rest(old(parser)), rest(final(parser)), while_len(rest(old(parser)))),
    decreases old(parser).tokens@.len(), 0nat,
{
    reveal(while_len);
    reveal(block_len);
    let ghost t0 = rest(parser);
    let mut while_statement = NonTerminalElement::new(NonTerminalType::WhileStatement);
    let keyword = match_tok(parser.consume_tok(), Token::Keyword(Keyword::While))?;
    while_statement.add(keyword);
    handle_condition(parser, &mut while_statement)?;
    let ghost c = cond_len(t0.skip(1))->0;
    assert(rest(parser) == t0.skip(c + 1int));
    handle_block(parser, &mut while_statement)?;
    Ok(ProgramElement::NonTerminal(while_statement))
}

/// `doStatement := 'do' name subroutineCall ';'`
#[verifier::rlimit(100)]
#[verifier::spinoff_prover]
fn handle_do_statement(parser: &mut TokenParser) -> (r: Result<ProgramElement, ParseError>)
    ensures
        r matches Ok(e) ==> stmt_shaped(e),
        final(parser).tokens@.len() <= old(parser).tokens@.len(),
        r matches Ok(e) ==> rest(old(parser)) == leaves(e) + rest(final(parser)),
        r is Ok ==> final(parser).tokens@.len() < old(parser).tokens@.len(),
        parsed(r is Ok, rest(old(parser)), rest(final(parser)), do_len(rest(old(parser)))),
{
    reveal(do_len);
    let ghost t0 = rest(parser);
    let mut do_statement = NonTerminalElement::new(NonTerminalType::DoStatement);
    let keyword = match_tok(parser.consume_tok(), Token::Keyword(Keyword::Do))?;
    do_statement.add(keyword);
    let name = match_tok(parser.consume_tok(), identifier())?;
    do_statement.add(name);
    assert(rest(parser) == t0.skip(2));
    let mut subroutine_call = handle_subroutine_call(parser)?;
    do_statement.add_vec(&mut subroutine_call);
    let ghost c = call_len(t0.skip(2))->0;
    assert(rest(parser) == t0.skip(c + 2int));
    let semicolon = match_tok(parser.consume_tok(), sym(Symbol::Semicolon))?;
    do_statement.add(semicolon);
    Ok(ProgramElement::NonTerminal(do_statement))
}

/// `returnStatement := 'return' expression? ';'`
#[verifier::rlimit(100)]
#[verifier::spinoff_prover]
fn handle_return_statement(parser: &mut TokenParser) -> (r: Result<ProgramElement, ParseError>)
    ensures
        r matches Ok(e) ==> stmt_shaped(e),
        final(parser).tokens@.len() <= old(parser).tokens@.len(),
        r matches Ok(e) ==> rest(old(parser)) == leaves(e) + rest(final(parser)),
        r is Ok ==> final(parser).tokens@.len() < old(parser).tokens@.len(),
        parsed(r is Ok, rest(old(parser)), rest(final(parser)), return_len(rest(old(parser)))),
{
    reveal(return_len);
    let ghost t0 = rest(parser);
    let mut return_statement = NonTerminalElement::new(NonTerminalType::ReturnStatement);
    let keyword = match_tok(parser.consume_tok(), Token::Keyword(Keyword::Return))?;
    return_statement.add(keyword);
    if !peek_is(parser, sym(Symbol::Semicolon)) {
        let expr = handle_expression(parser)?;
        return_statement.add(expr);
        let ghost e = expr_len(t0.skip(1))->0;
        assert(rest(parser) == t0.skip(e + 1int));
    }
    let semicolon = match_tok(parser.consume_tok(), sym(Symbol::Semicolon))?;
    return_statement.add(semicolon);
    Ok(ProgramElement::NonTerminal(return_statement))
}

/// `statements := statement*`, up to the closing brace, which is left in the stream.
#[verifier::rlimit(100)]
#[verifier::spinoff_prover]
fn handle_statements(parser: &mut TokenParser) -> (r: Result<ProgramElement, ParseError>)
    ensures
        r matches Ok(e) ==> stmts_shaped(e),
        final(parser).tokens@.len() <= old(parser).tokens@.len(),
        r matches Ok(e) ==> rest(old(parser)) == leaves(e) + rest(final(parser)),
        parsed(r is Ok, rest(old(parser)), rest(final(parser)), statements_len(rest(old(parser)))),
    decreases old(parser).tokens@.len(), 1nat,
{
    proof {
        crate::grammar::lemma_skip_zero(rest(parser));
    }
    let ghost t0 = rest(parser);
    let mut statements = NonTerminalElement::new(NonTerminalType::Statements);
    while peek_is(parser, Token::Keyword(Keyword::Let)) || peek_is(parser, Token::Keyword(Keyword::If))
        || peek_is(parser, Token::Keyword(Keyword::While)) || peek_is(parser, Token::Keyword(Keyword::Do))
        || peek_is(parser, Token::Keyword(Keyword::Return))
        invariant
            spelled(&statements, parser) == t0,
            t0 == rest(old(parser)),
            parser.tokens@.len() <= old(parser).tokens@.len(),
            resumes(t0, rest(parser), statements_len(t0), statements_len(rest(parser))),
            statements.nt_type == NonTerminalType::Statements,
            forall|j: int| 0 <= j < statements.children@.len() ==> stmt_shaped(#[trigger] statements.children@[j]),
        decreases parser.tokens@.len(),
    {
        proof {
            crate::grammar::lemma_statements_step(rest(parser));
        }
        let statement = if peek_is(parser, Token::Keyword(Keyword::Let)) {
            handle_let_statement(parser)?
        } else if peek_is(parser, Token::Keyword(Keyword::If)) {
            handle_if_statement(parser)?
        } else if peek_is(parser, Token::Keyword(Keyword::While)) {
            handle_while_statement(parser)?
        } else if peek_is(parser, Token::Keyword(Keyword::Do)) {
            handle_do_statement(parser)?
        } else {
            handle_return_statement(parser)?
        };
        statements.add(statement);
    }
    proof {
        crate::grammar::lemma_statements_step(rest(parser));
    }
    if peek_is(parser, sym(Symbol::RBrace)) {
        Ok(ProgramElement::NonTerminal(statements))
    } else if parser.peek_tok().is_none() {
        Err(ParseError::UnexpectedEnd)
    } else {
        Err(ParseError::UnexpectedToken)
    }
}

/// The XML tag of a grammar category.
pub open spec fn tag_text(t: NonTerminalType) -> Seq<char> {
    match t {
        NonTerminalType::Class => "class"@,
        NonTerminalType::ClassVarDec => "classVarDec"@,
        NonTerminalType::SubroutineDec => "subroutineDec"@,
        NonTerminalType::ParamList => "parameterList"@,
        NonTerminalType::SubroutineBody => "subroutineBody"@,
        NonTerminalType::VarDec => "varDec"@,
        NonTerminalType::Statements => "statements"@,
        NonTerminalType::IfStatement => "ifStatement"@,
        NonTerminalType::LetStatement => "letStatement"@,
        NonTerminalType::WhileStatement => "whileStatement"@,
        NonTerminalType::DoStatement => "doStatement"@,
        NonTerminalType::ReturnStatement => "returnStatement"@,
        NonTerminalType::ExpressionList => "expressionList"@,
        NonTerminalType::Expression => "expression"@,
        NonTerminalType::Term => "term"@,
    }
}

/// The position of the first line feed at or after `i`, or the length of `s`.
pub open spec fn line_end(s: Seq<char>, i: int) -> int
    decreases s.len() - i,
{
    if 0 <= i < s.len() && s[i] != '\n' {
        line_end(s, i + 1)
    } else {
        i
    }
}

/// The lines of `s` from position `i` on, each preceded by two spaces and ended by a line
/// feed. Lines end at a line feed, or at a carriage return and a line feed; the last line
/// needs no ending.
pub open spec fn reindent_from(s: Seq<char>, i: int) -> Seq<char>
    decreases s.len() - i,
{
    if i < 0 || i >= s.len() {
        Seq::empty()
    } else {
        let j = line_end(s, i);
        if j < i {
            Seq::empty()
        } else {
            let end = if j < s.len() && j > i && s[j - 1] == '\r' { j - 1 } else { j };
            let line = "  "@ + s.subrange(i, end) + "\n"@;
            if j >= s.len() {
                line
            } else {
                line + reindent_from(s, j + 1)
            }
        }
    }
}

/// The XML of a tree: a token is one element ended by a line feed; an inner node is its
/// opening tag line, then the XML of each child with every line indented by two spaces,
/// then its closing tag line.
pub open spec fn xml(e: ProgramElement) -> Seq<char>
    decreases e,
{
    match e {
        ProgramElement::Terminal(t) => token_xml(t@) + "\n"@,
        ProgramElement::NonTerminal(nt) => "<"@ + tag_text(nt.nt_type) + ">\n"@ + xml_seq(nt.children@) + "</"@
            + tag_text(nt.nt_type) + ">\n"@,
    }
}

pub open spec fn xml_seq(cs: Seq<ProgramElement>) -> Seq<char>
    decreases cs,
{
    if cs.len() == 0 {
        Seq::empty()
    } else {
        xml_seq(cs.subrange(0, cs.len() - 1)) + reindent_from(xml(cs[cs.len() - 1]), 0)
    }
}

/// Appends the characters of `s`.
fn push_str_chars(out: &mut Vec<char>, s: &str)
    ensures
        final(out)@ == old(out)@ + s@,
{
    let n = s.unicode_len();
    let mut i: usize = 0;
    while i < n
        invariant
            n == s@.len(),
            i <= n,
            out@ == old(out)@ + s@.subrange(0, i as int),
        decreases n - i,
    {
        out.push(s.get_char(i));
        assert(s@.subrange(0, i + 1) =~= s@.subrange(0, i as int).push(s@[i as int]));
        i = i + 1;
    }
    assert(s@.subrange(0, n as int) =~= s@);
}

/// Appends the lines of `s`, each indented by two spaces.
fn reindent_into(out: &mut Vec<char>, s: &Vec<char>)
    ensures
        final(out)@ == old(out)@ + reindent_from(s@, 0),
{
    let n = s.len();
    let ghost target = old(out)@ + reindent_from(s@, 0);
    let mut i: usize = 0;
    while i < n
        invariant_except_break
            target == out@ + reindent_from(s@, i as int),
        invariant
            n == s@.len(),
            target == old(out)@ + reindent_from(s@, 0),
        ensures
            target == out@,
        decreases n - i,
    {
        let mut j = i;
        while j < n && s[j] != '\n'
            invariant
                n == s@.len(),
                i <= j <= n,
                line_end(s@, j as int) == line_end(s@, i as int),
            decreases n - j,
        {
            j = j + 1;
        }
        let end = if j < n && j > i && s[j - 1] == '\r' { j - 1 } else { j };
        let ghost before = out@;
        out.push(' ');
        out.push(' ');
        proof {
            reveal_strlit("  ");
            assert(out@ =~= before + "  "@ + s@.subrange(i as int, i as int));
        }
        let mut k = i;
        while k < end
            invariant
                i <= k <= end <= n,
                n == s@.len(),
                out@ == before + "  "@ + s@.subrange(i as int, k as int),
            decreases end - k,
        {
            out.push(s[k]);
            assert(s@.subrange(i as int, k + 1) =~= s@.subrange(i as int, k as int).push(s@[k as int]));
            k = k + 1;
        }
        out.push('\n');
        proof {
            reveal_strlit("  ");
            reveal_strlit("\n");
            assert(out@ =~= before + ("  "@ + s@.subrange(i as int, end as int) + "\n"@));
            if j >= n {
                assert(reindent_from(s@, n as int) =~= Seq::<char>::empty());
                assert(out@ + Seq::<char>::empty() =~= out@);
            }
        }
        if j >= n {
            break;
        }
        i = j + 1;
    }
}

/// The characters of `v` as a string.
fn string_of(v: &Vec<char>) -> (r: String)
    ensures
        r@ == v@,
{
    let mut out = String::new();
    let mut i: usize = 0;
    while i < v.len()
        invariant
            i <= v@.len(),
            out@ == v@.subrange(0, i as int),
        decreases v@.len() - i,
    {
        crate::text::push_char(&mut out, v[i]);
        assert(v@.subrange(0, i + 1) =~= v@.subrange(0, i as int).push(v@[i as int]));
        i = i + 1;
    }
    assert(v@.subrange(0, i as int) =~= v@);
    out
}

impl NonTerminalElement {
    /// The XML tag of this node's category.
    pub fn tag(&self) -> (r: &'static str)
        ensures
            r@ == tag_text(self.nt_type),
    {
        match self.nt_type {
            NonTerminalType::Class => "class",
            NonTerminalType::ClassVarDec => "classVarDec",
            NonTerminalType::SubroutineDec => "subroutineDec",
            NonTerminalType::ParamList => "parameterList",
            NonTerminalType::SubroutineBody => "subroutineBody",
            NonTerminalType::VarDec => "varDec",
            NonTerminalType::Statements => "statements",
            NonTerminalType::IfStatement => "ifStatement",
            NonTerminalType::LetStatement => "letStatement",
            NonTerminalType::WhileStatement => "whileStatement",
            NonTerminalType::DoStatement => "doStatement",
            NonTerminalType::ReturnStatement => "returnStatement",
            NonTerminalType::ExpressionList => "expressionList",
            NonTerminalType::Expression => "expression",
            NonTerminalType::Term => "term",
        }
    }

    /// The characters of this node's XML.
    fn xml_chars(&self) -> (r: Vec<char>)
        ensures
            r@ == xml(ProgramElement::NonTerminal(*self)),
        decreases *self, 0int,
    {
        let mut out: Vec<char> = Vec::new();
        push_str_chars(&mut out, "<");
        push_str_chars(&mut out, self.tag());
        push_str_chars(&mut out, ">\n");
        let ghost start = out@;
        let mut i: usize = 0;
        assert(self.children@.subrange(0, 0) =~= Seq::<ProgramElement>::empty());
        while i < self.children.len()
            invariant
                i <= self.children@.len(),
                out@ == start + xml_seq(self.children@.subrange(0, i as int)),
            decreases self.children@.len() - i,
        {
            let child = self.children[i].xml_chars();
            reindent_into(&mut out, &child);
            assert(self.children@.subrange(0, i + 1).subrange(0, i as int) =~= self.children@.subrange(0, i as int));
            i = i + 1;
        }
        assert(self.children@.subrange(0, i as int) =~= self.children@);
        push_str_chars(&mut out, "</");
        push_str_chars(&mut out, self.tag());
        push_str_chars(&mut out, ">\n");
        out
    }

    /// The XML of this parse tree.
    pub fn to_xml(&self) -> (r: String)
        ensures
            r@ == xml(ProgramElement::NonTerminal(*self)),
    {
        string_of(&self.xml_chars())
    }
}

impl ProgramElement {
    /// The characters of this tree's XML.
    fn xml_chars(&self) -> (r: Vec<char>)
        ensures
            r@ == xml(*self),
        decreases *self, 1int,
    {
        match self {
            ProgramElement::Terminal(t) => {
                let mut out: Vec<char> = Vec::new();
                push_str_chars(&mut out, t.to_xml().as_str());
                push_str_chars(&mut out, "\n");
                out
            },
            ProgramElement::NonTerminal(nt) => nt.xml_chars(),
        }
    }

    /// The XML of this tree.
    pub fn to_xml(&self) -> (r: String)
        ensures
            r@ == xml(*self),
    {
        string_of(&self.xml_chars())
    }
}

} // verus!
verus! {

pub open spec fn is_node(e: ProgramElement, t: NonTerminalType) -> bool {
    e matches ProgramElement::NonTerminal(nt) && nt.nt_type == t
}

/// The children of an inner node; none for a leaf.
pub open spec fn kids(e: ProgramElement) -> Seq<ProgramElement> {
    match e {
        ProgramElement::NonTerminal(nt) => nt.children@,
        _ => Seq::empty(),
    }
}

pub open spec fn is_symbol(e: ProgramElement, s: Symbol) -> bool {
    e matches ProgramElement::Terminal(Token::Symbol(x)) && x == s
}

pub open spec fn is_keyword(e: ProgramElement, k: Keyword) -> bool {
    e matches ProgramElement::Terminal(Token::Keyword(x)) && x == k
}

pub open spec fn is_ident(e: ProgramElement) -> bool {
    e matches ProgramElement::Terminal(Token::Identifier(_))
}

pub open spec fn is_type_leaf(e: ProgramElement) -> bool {
    e matches ProgramElement::Terminal(t) && is_type_token(t@)
}

pub open spec fn is_op_leaf(e: ProgramElement) -> bool {
    e matches ProgramElement::Terminal(t) && is_op(t@)
}

pub open spec fn is_constant_leaf(e: ProgramElement) -> bool {
    e matches ProgramElement::Terminal(t) && is_constant_token(t@)
}

/// Children from 3 on: complete `',' name` pairs, so far.
pub open spec fn name_pairs(cs: Seq<ProgramElement>) -> bool {
    &&& cs.len() >= 3
    &&& (cs.len() - 3) % 2 == 0
    &&& forall|j: int| 3 <= j < cs.len() ==> if (j - 3) % 2 == 0 {
        is_symbol(#[trigger] cs[j], Symbol::Comma)
    } else {
        is_ident(cs[j])
    }
}

#[verifier::spinoff_prover]
pub proof fn lemma_pairs_push(cs: Seq<ProgramElement>, a: ProgramElement, b: ProgramElement)
    requires
        name_pairs(cs),
        is_symbol(a, Symbol::Comma),
        is_ident(b),
    ensures
        name_pairs(cs.push(a).push(b)),
        cs.len() >= 3,
        cs.push(a).push(b)[0] == cs[0],
        cs.push(a).push(b)[1] == cs[1],
        cs.push(a).push(b)[2] == cs[2],
{
    let c2 = cs.push(a).push(b);
    assert forall|j: int| 3 <= j < c2.len() implies if (j - 3) % 2 == 0 {
        is_symbol(#[trigger] c2[j], Symbol::Comma)
    } else {
        is_ident(c2[j])
    } by {
        if j < cs.len() {
            assert(c2[j] == cs[j]);
        }
    }
}

#[verifier::spinoff_prover]
pub proof fn lemma_names_close(cs: Seq<ProgramElement>, e: ProgramElement)
    requires
        name_pairs(cs),
        is_symbol(e, Symbol::Semicolon),
    ensures
        names_shaped(cs.push(e), 3),
        cs.len() >= 3,
{
    let c2 = cs.push(e);
    assert forall|j: int| 3 <= j < c2.len() - 1 implies if (j - 3) % 2 == 0 {
        is_symbol(#[trigger] c2[j], Symbol::Comma)
    } else {
        is_ident(c2[j])
    } by {
        assert(c2[j] == cs[j]);
    }
}

// The shape of each node of a parse tree: its category and its children, position by
// position, as the grammar's production for that category lays them out.

/// From child `i` on: `(',' name)* ';'`.
pub open spec fn names_shaped(cs: Seq<ProgramElement>, i: int) -> bool {
    &&& 0 <= i < cs.len()
    &&& (cs.len() - i) % 2 == 1
    &&& is_symbol(cs[cs.len() - 1], Symbol::Semicolon)
    &&& forall|j: int| i <= j < cs.len() - 1 ==> if (j - i) % 2 == 0 {
        is_symbol(#[trigger] cs[j], Symbol::Comma)
    } else {
        is_ident(cs[j])
    }
}

/// `classVarDec: ('static'|'field') type name (',' name)* ';'`
pub open spec fn class_var_dec_shaped(e: ProgramElement) -> bool {
    let cs = kids(e);
    &&& is_node(e, NonTerminalType::ClassVarDec)
    &&& cs.len() >= 4
    &&& (is_keyword(cs[0], Keyword::Static) || is_keyword(cs[0], Keyword::Field))
    &&& is_type_leaf(cs[1])
    &&& is_ident(cs[2])
    &&& names_shaped(cs, 3)
}

/// `varDec: 'var' type name (',' name)* ';'`
pub open spec fn var_dec_shaped(e: ProgramElement) -> bool {
    let cs = kids(e);
    &&& is_node(e, NonTerminalType::VarDec)
    &&& cs.len() >= 4
    &&& is_keyword(cs[0], Keyword::Var)
    &&& is_type_leaf(cs[1])
    &&& is_ident(cs[2])
    &&& names_shaped(cs, 3)
}

/// `parameterList: (type name (',' type name)*)?`
pub open spec fn param_list_shaped(e: ProgramElement) -> bool {
    let cs = kids(e);
    &&& is_node(e, NonTerminalType::ParamList)
    &&& cs.len() == 0 || cs.len() % 3 == 2
    &&& forall|j: int| 0 <= j < cs.len() ==> if j % 3 == 0 {
        is_type_leaf(#[trigger] cs[j])
    } else if j % 3 == 1 {
        is_ident(cs[j])
    } else {
        is_symbol(cs[j], Symbol::Comma)
    }
}

/// `expression: term (op term)*`
pub open spec fn expr_shaped(e: ProgramElement) -> bool
    decreases e, 0int,
{
    match e {
        ProgramElement::NonTerminal(nt) => {
            &&& nt.nt_type == NonTerminalType::Expression
            &&& nt.children@.len() % 2 == 1
            &&& forall|j: int| 0 <= j < nt.children@.len() ==> if j % 2 == 0 {
                term_shaped(#[trigger] nt.children@[j])
            } else {
                is_op_leaf(nt.children@[j])
            }
        },
        _ => false,
    }
}

/// `expressionList: (expression (',' expression)*)?`
pub open spec fn list_shaped(e: ProgramElement) -> bool
    decreases e, 0int,
{
    match e {
        ProgramElement::NonTerminal(nt) => {
            &&& nt.nt_type == NonTerminalType::ExpressionList
            &&& nt.children@.len() == 0 || nt.children@.len() % 2 == 1
            &&& forall|j: int| 0 <= j < nt.children@.len() ==> if j % 2 == 0 {
                expr_shaped(#[trigger] nt.children@[j])
            } else {
                is_symbol(nt.children@[j], Symbol::Comma)
            }
        },
        _ => false,
    }
}

/// Children `k` to `end` (exclusive) of `cs` are the rest of a call:
/// `'(' expressionList ')'` or `'.' name '(' expressionList ')'`.
pub open spec fn call_shaped(cs: Seq<ProgramElement>, k: int, end: int) -> bool
    decreases cs, 0int,
{
    &&& 0 <= k && end <= cs.len()
    &&& {
        ||| end == k + 3 && is_symbol(cs[k], Symbol::LParen) && list_shaped(cs[k + 1])
            && is_symbol(cs[k + 2], Symbol::RParen)
        ||| end == k + 5 && is_symbol(cs[k], Symbol::Dot) && is_ident(cs[k + 1])
            && is_symbol(cs[k + 2], Symbol::LParen) && list_shaped(cs[k + 3])
            && is_symbol(cs[k + 4], Symbol::RParen)
    }
}

/// `term: constant | name | ('-'|'~') term | name '[' expression ']' | name call | '(' expression ')'`
pub open spec fn term_shaped(e: ProgramElement) -> bool
    decreases e, 1int,
{
    match e {
        ProgramElement::NonTerminal(nt) => {
            let cs = nt.children@;
            &&& nt.nt_type == NonTerminalType::Term
            &&& cs.len() > 0
            &&& {
                ||| cs.len() == 1 && (is_constant_leaf(cs[0]) || is_ident(cs[0]))
                ||| cs.len() == 2 && (is_symbol(cs[0], Symbol::Minus) || is_symbol(cs[0], Symbol::Not))
                    && term_shaped(cs[1])
                ||| cs.len() == 4 && is_ident(cs[0]) && is_symbol(cs[1], Symbol::LBrack) && expr_shaped(cs[2])
                    && is_symbol(cs[3], Symbol::RBrack)
                ||| cs.len() == 3 && is_symbol(cs[0], Symbol::LParen) && expr_shaped(cs[1])
                    && is_symbol(cs[2], Symbol::RParen)
                ||| is_ident(cs[0]) && call_shaped(cs, 1, cs.len() as int)
            }
        },
        _ => false,
    }
}

/// One statement: `let`, `if`, `while`, `do` or `return`, laid out as its production.
pub open spec fn stmt_shaped(e: ProgramElement) -> bool
    decreases e, 1int,
{
    match e {
        ProgramElement::NonTerminal(nt) => {
            let cs = nt.children@;
            let n = cs.len();
            match nt.nt_type {
                NonTerminalType::LetStatement => n >= 5 && is_keyword(cs[0], Keyword::Let) && is_ident(cs[1])
                    && is_symbol(cs[n - 3], Symbol::Equal) && expr_shaped(cs[n - 2])
                    && is_symbol(cs[n - 1], Symbol::Semicolon) && (n == 5 || (n == 8
                    && is_symbol(cs[2], Symbol::LBrack) && expr_shaped(cs[3]) && is_symbol(cs[4], Symbol::RBrack))),
                NonTerminalType::IfStatement => (n == 7 || n == 11) && is_keyword(cs[0], Keyword::If)
                    && is_symbol(cs[1], Symbol::LParen) && expr_shaped(cs[2]) && is_symbol(cs[3], Symbol::RParen)
                    && is_symbol(cs[4], Symbol::LBrace) && stmts_shaped(cs[5]) && is_symbol(cs[6], Symbol::RBrace)
                    && (n == 11 ==> is_keyword(cs[7], Keyword::Else) && is_symbol(cs[8], Symbol::LBrace)
                    && stmts_shaped(cs[9]) && is_symbol(cs[10], Symbol::RBrace)),
                NonTerminalType::WhileStatement => n == 7 && is_keyword(cs[0], Keyword::While)
                    && is_symbol(cs[1], Symbol::LParen) && expr_shaped(cs[2]) && is_symbol(cs[3], Symbol::RParen)
                    && is_symbol(cs[4], Symbol::LBrace) && stmts_shaped(cs[5]) && is_symbol(cs[6], Symbol::RBrace),
                NonTerminalType::DoStatement => n >= 3 && is_keyword(cs[0], Keyword::Do) && is_ident(cs[1])
                    && call_shaped(cs, 2, n - 1) && is_symbol(cs[n - 1], Symbol::Semicolon),
                NonTerminalType::ReturnStatement => (n == 2 || (n == 3 && expr_shaped(cs[1])))
                    && is_keyword(cs[0], Keyword::Return) && is_symbol(cs[n - 1], Symbol::Semicolon),
                _ => false,
            }
        },
        _ => false,
    }
}

/// `statements: statement*`
pub open spec fn stmts_shaped(e: ProgramElement) -> bool
    decreases e, 0int,
{
    match e {
        ProgramElement::NonTerminal(nt) => {
            &&& nt.nt_type == NonTerminalType::Statements
            &&& forall|j: int| 0 <= j < nt.children@.len() ==> stmt_shaped(#[trigger] nt.children@[j])
        },
        _ => false,
    }
}

/// `subroutineBody: '{' varDec* statements '}'`
pub open spec fn body_shaped(e: ProgramElement) -> bool {
    let cs = kids(e);
    &&& is_node(e, NonTerminalType::SubroutineBody)
    &&& cs.len() >= 3
    &&& is_symbol(cs[0], Symbol::LBrace)
    &&& forall|j: int| 1 <= j < cs.len() - 2 ==> var_dec_shaped(#[trigger] cs[j])
    &&& stmts_shaped(cs[cs.len() - 2])
    &&& is_symbol(cs[cs.len() - 1], Symbol::RBrace)
}

/// `subroutineDec: ('constructor'|'function'|'method') ('void'|type) name '(' parameterList ')' subroutineBody`
pub open spec fn subroutine_shaped(e: ProgramElement) -> bool {
    let cs = kids(e);
    &&& is_node(e, NonTerminalType::SubroutineDec)
    &&& cs.len() == 7
    &&& (is_keyword(cs[0], Keyword::Constructor) || is_keyword(cs[0], Keyword::Function)
        || is_keyword(cs[0], Keyword::Method))
    &&& (is_keyword(cs[1], Keyword::Void) || is_type_leaf(cs[1]))
    &&& is_ident(cs[2])
    &&& is_symbol(cs[3], Symbol::LParen)
    &&& param_list_shaped(cs[4])
    &&& is_symbol(cs[5], Symbol::RParen)
    &&& body_shaped(cs[6])
}

/// `class: 'class' name '{' classVarDec* subroutineDec* '}'`: the declarations stand as
/// children between the brace tokens, variable declarations first.
pub open spec fn class_shaped(c: NonTerminalElement) -> bool {
    let cs = c.children@;
    &&& c.nt_type == NonTerminalType::Class
    &&& cs.len() >= 4
    &&& is_keyword(cs[0], Keyword::Class)
    &&& is_ident(cs[1])
    &&& is_symbol(cs[2], Symbol::LBrace)
    &&& forall|j: int| 3 <= j < cs.len() - 1 ==> class_var_dec_shaped(#[trigger] cs[j]) || subroutine_shaped(cs[j])
    &&& forall|i: int, j: int| 3 <= i < j < cs.len() - 1 && #[trigger] subroutine_shaped(cs[i]) ==> #[trigger] subroutine_shaped(cs[j])
    &&& is_symbol(cs[cs.len() - 1], Symbol::RBrace)
}

} // verus!
