use vstd::prelude::*;
use std::collections::VecDeque;
use vstd::string::StringExecFns;
use crate::text::push_char;

verus! {

/// The reserved words of the language.
#[derive(Debug, Clone, Copy, PartialEq, Eq, Structural)]
pub enum Keyword {
    Class,
    Method,
    Function,
    Constructor,
    Int,
    Boolean,
    Char,
    Void,
    Var,
    Let,
    Do,
    If,
    Else,
    While,
    Return,
    True,
    False,
    Null,
    This,
    Static,
    Field,
}

/// The single-character operators and punctuation marks.
#[derive(Debug, Clone, Copy, PartialEq, Eq, Structural)]
pub enum Symbol {
    LBrace,
    RBrace,
    LParen,
    RParen,
    LBrack,
    RBrack,
    Dot,
    Semicolon,
    Comma,
    Add,
    Minus,
    Mult,
    Division,
    And,
    Or,
    LessThan,
    GreaterThan,
    Equal,
    Not,
}

/// One lexical token.
#[derive(Debug)]
pub enum Token {
    Keyword(Keyword),
    Symbol(Symbol),
    Identifier(String),
    IntConst(String),
    StringConst(String),
}

/// The mathematical value of a token: its kind and its text.
pub enum TokenView {
    Keyword(Keyword),
    Symbol(Symbol),
    Identifier(Seq<char>),
    IntConst(Seq<char>),
    StringConst(Seq<char>),
}

impl View for Token {
    type V = TokenView;

    open spec fn view(&self) -> TokenView {
        match self {
            Token::Keyword(k) => TokenView::Keyword(*k),
            Token::Symbol(s) => TokenView::Symbol(*s),
            Token::Identifier(s) => TokenView::Identifier(s@),
            Token::IntConst(s) => TokenView::IntConst(s@),
            Token::StringConst(s) => TokenView::StringConst(s@),
        }
    }
}

/// The text of a reserved word.
pub open spec fn keyword_text(k: Keyword) -> Seq<char> {
    match k {
        Keyword::Class => "class"@,
        Keyword::Method => "method"@,
        Keyword::Function => "function"@,
        Keyword::Constructor => "constructor"@,
        Keyword::Int => "int"@,
        Keyword::Boolean => "boolean"@,
        Keyword::Char => "char"@,
        Keyword::Void => "void"@,
        Keyword::Var => "var"@,
        Keyword::Let => "let"@,
        Keyword::Do => "do"@,
        Keyword::If => "if"@,
        Keyword::Else => "else"@,
        Keyword::While => "while"@,
        Keyword::Return => "return"@,
        Keyword::True => "true"@,
        Keyword::False => "false"@,
        Keyword::Null => "null"@,
        Keyword::This => "this"@,
        Keyword::Static => "static"@,
        Keyword::Field => "field"@,
    }
}

/// The reserved word spelled `s`, if there is one.
pub open spec fn keyword_of(s: Seq<char>) -> Option<Keyword> {
    if s == "class"@ { Some(Keyword::Class) }
    else if s == "method"@ { Some(Keyword::Method) }
    else if s == "function"@ { Some(Keyword::Function) }
    else if s == "constructor"@ { Some(Keyword::Constructor) }
    else if s == "int"@ { Some(Keyword::Int) }
    else if s == "boolean"@ { Some(Keyword::Boolean) }
    else if s == "char"@ { Some(Keyword::Char) }
    else if s == "void"@ { Some(Keyword::Void) }
    else if s == "var"@ { Some(Keyword::Var) }
    else if s == "let"@ { Some(Keyword::Let) }
    else if s == "do"@ { Some(Keyword::Do) }
    else if s == "if"@ { Some(Keyword::If) }
    else if s == "else"@ { Some(Keyword::Else) }
    else if s == "while"@ { Some(Keyword::While) }
    else if s == "return"@ { Some(Keyword::Return) }
    else if s == "true"@ { Some(Keyword::True) }
    else if s == "false"@ { Some(Keyword::False) }
    else if s == "null"@ { Some(Keyword::Null) }
    else if s == "this"@ { Some(Keyword::This) }
    else if s == "static"@ { Some(Keyword::Static) }
    else if s == "field"@ { Some(Keyword::Field) }
    else { None }
}

/// The symbol written as the byte `b`, if there is one.
pub open spec fn symbol_of(b: u8) -> Option<Symbol> {
    if b == 123u8 { Some(Symbol::LBrace) }  // '{'
    else if b == 125u8 { Some(Symbol::RBrace) }  // '}'
    else if b == 40u8 { Some(Symbol::LParen) }  // '('
    else if b == 41u8 { Some(Symbol::RParen) }  // ')'
    else if b == 91u8 { Some(Symbol::LBrack) }  // '['
    else if b == 93u8 { Some(Symbol::RBrack) }  // ']'
    else if b == 46u8 { Some(Symbol::Dot) }  // '.'
    else if b == 59u8 { Some(Symbol::Semicolon) }  // ';'
    else if b == 44u8 { Some(Symbol::Comma) }  // ','
    else if b == 43u8 { Some(Symbol::Add) }  // '+'
    else if b == 45u8 { Some(Symbol::Minus) }  // '-'
    else if b == 42u8 { Some(Symbol::Mult) }  // '*'
    else if b == 47u8 { Some(Symbol::Division) }  // '/'
    else if b == 38u8 { Some(Symbol::And) }  // '&'
    else if b == 124u8 { Some(Symbol::Or) }  // '|'
    else if b == 60u8 { Some(Symbol::LessThan) }  // '<'
    else if b == 62u8 { Some(Symbol::GreaterThan) }  // '>'
    else if b == 61u8 { Some(Symbol::Equal) }  // '='
    else if b == 126u8 { Some(Symbol::Not) }  // '~'
    else { None }
}

/// How a symbol is written in the XML form of a token stream (markup characters escaped).
pub open spec fn symbol_xml_text(s: Symbol) -> Seq<char> {
    match s {
        Symbol::LBrace => "{"@,
        Symbol::RBrace => "}"@,
        Symbol::LParen => "("@,
        Symbol::RParen => ")"@,
        Symbol::LBrack => "["@,
        Symbol::RBrack => "]"@,
        Symbol::Dot => "."@,
        Symbol::Semicolon => ";"@,
        Symbol::Comma => ","@,
        Symbol::Add => "+"@,
        Symbol::Minus => "-"@,
        Symbol::Mult => "*"@,
        Symbol::Division => "/"@,
        Symbol::And => "&amp;"@,
        Symbol::Or => "|"@,
        Symbol::LessThan => "&lt;"@,
        Symbol::GreaterThan => "&gt;"@,
        Symbol::Equal => "="@,
        Symbol::Not => "~"@,
    }
}

/// The one-line XML element of a token.
pub open spec fn token_xml(t: TokenView) -> Seq<char> {
    match t {
        TokenView::Keyword(k) => "<keyword> "@ + keyword_text(k) + " </keyword>"@,
        TokenView::Symbol(s) => "<symbol> "@ + symbol_xml_text(s) + " </symbol>"@,
        TokenView::Identifier(s) => "<identifier> "@ + s + " </identifier>"@,
        TokenView::IntConst(s) => "<integerConstant> "@ + s + " </integerConstant>"@,
        TokenView::StringConst(s) => "<stringConstant> "@ + s + " </stringConstant>"@,
    }
}

/// Whether `a` and `b` are of the same kind: same reserved word, same symbol, or both
/// identifiers, both integer constants or both string constants whatever their text.
pub open spec fn same_kind(a: TokenView, b: TokenView) -> bool {
    match (a, b) {
        (TokenView::Keyword(x), TokenView::Keyword(y)) => x == y,
        (TokenView::Symbol(x), TokenView::Symbol(y)) => x == y,
        (TokenView::Identifier(_), TokenView::Identifier(_)) => true,
        (TokenView::IntConst(_), TokenView::IntConst(_)) => true,
        (TokenView::StringConst(_), TokenView::StringConst(_)) => true,
        _ => false,
    }
}

fn is_word(s: &String, w: &str) -> (r: bool)
    ensures
        r == (s@ == w@),
{
    let t = String::from_str(w);
    s.eq(&t)
}

impl Keyword {
    /// The reserved word spelled `s`, if there is one.
    pub fn to_keyword(s: &String) -> (r: Option<Keyword>)
        ensures
            r == keyword_of(s@),
    {
        if is_word(s, "class") { Some(Keyword::Class) }
        else if is_word(s, "method") { Some(Keyword::Method) }
        else if is_word(s, "function") { Some(Keyword::Function) }
        else if is_word(s, "constructor") { Some(Keyword::Constructor) }
        else if is_word(s, "int") { Some(Keyword::Int) }
        else if is_word(s, "boolean") { Some(Keyword::Boolean) }
        else if is_word(s, "char") { Some(Keyword::Char) }
        else if is_word(s, "void") { Some(Keyword::Void) }
        else if is_word(s, "var") { Some(Keyword::Var) }
        else if is_word(s, "let") { Some(Keyword::Let) }
        else if is_word(s, "do") { Some(Keyword::Do) }
        else if is_word(s, "if") { Some(Keyword::If) }
        else if is_word(s, "else") { Some(Keyword::Else) }
        else if is_word(s, "while") { Some(Keyword::While) }
        else if is_word(s, "return") { Some(Keyword::Return) }
        else if is_word(s, "true") { Some(Keyword::True) }
        else if is_word(s, "false") { Some(Keyword::False) }
        else if is_word(s, "null") { Some(Keyword::Null) }
        else if is_word(s, "this") { Some(Keyword::This) }
        else if is_word(s, "static") { Some(Keyword::Static) }
        else if is_word(s, "field") { Some(Keyword::Field) }
        else { None }
    }

    /// The text of this reserved word.
    pub fn text(&self) -> (r: &'static str)
        ensures
            r@ == keyword_text(*self),
    {
        match self {
            Keyword::Class => "class",
            Keyword::Method => "method",
            Keyword::Function => "function",
            Keyword::Constructor => "constructor",
            Keyword::Int => "int",
            Keyword::Boolean => "boolean",
            Keyword::Char => "char",
            Keyword::Void => "void",
            Keyword::Var => "var",
            Keyword::Let => "let",
            Keyword::Do => "do",
            Keyword::If => "if",
            Keyword::Else => "else",
            Keyword::While => "while",
            Keyword::Return => "return",
            Keyword::True => "true",
            Keyword::False => "false",
            Keyword::Null => "null",
            Keyword::This => "this",
            Keyword::Static => "static",
            Keyword::Field => "field",
        }
    }

    /// The XML element of this reserved word.
    pub fn to_xml(&self) -> (r: String)
        ensures
            r@ == token_xml(TokenView::Keyword(*self)),
    {
        let mut xml = String::from_str("<keyword> ");
        xml.append(self.text());
        xml.append(" </keyword>");
        xml
    }
}

impl Symbol {
    /// The symbol written as the byte `ch`, if there is one.
    pub fn to_symbol(ch: u8) -> (r: Option<Symbol>)
        ensures
            r == symbol_of(ch),
    {
        match ch {
            123u8 => Some(Symbol::LBrace),  // '{'
            125u8 => Some(Symbol::RBrace),  // '}'
            40u8 => Some(Symbol::LParen),  // '('
            41u8 => Some(Symbol::RParen),  // ')'
            91u8 => Some(Symbol::LBrack),  // '['
            93u8 => Some(Symbol::RBrack),  // ']'
            46u8 => Some(Symbol::Dot),  // '.'
            59u8 => Some(Symbol::Semicolon),  // ';'
            44u8 => Some(Symbol::Comma),  // ','
            43u8 => Some(Symbol::Add),  // '+'
            45u8 => Some(Symbol::Minus),  // '-'
            42u8 => Some(Symbol::Mult),  // '*'
            47u8 => Some(Symbol::Division),  // '/'
            38u8 => Some(Symbol::And),  // '&'
            124u8 => Some(Symbol::Or),  // '|'
            60u8 => Some(Symbol::LessThan),  // '<'
            62u8 => Some(Symbol::GreaterThan),  // '>'
            61u8 => Some(Symbol::Equal),  // '='
            126u8 => Some(Symbol::Not),  // '~'
            _ => None,
        }
    }

    /// How this symbol is written in XML.
    pub fn xml_text(&self) -> (r: &'static str)
        ensures
            r@ == symbol_xml_text(*self),
    {
        match self {
            Symbol::LBrace => "{",
            Symbol::RBrace => "}",
            Symbol::LParen => "(",
            Symbol::RParen => ")",
            Symbol::LBrack => "[",
            Symbol::RBrack => "]",
            Symbol::Dot => ".",
            Symbol::Semicolon => ";",
            Symbol::Comma => ",",
            Symbol::Add => "+",
            Symbol::Minus => "-",
            Symbol::Mult => "*",
            Symbol::Division => "/",
            Symbol::And => "&amp;",
            Symbol::Or => "|",
            Symbol::LessThan => "&lt;",
            Symbol::GreaterThan => "&gt;",
            Symbol::Equal => "=",
            Symbol::Not => "~",
        }
    }

    /// The XML element of this symbol.
    pub fn to_xml(&self) -> (r: String)
        ensures
            r@ == token_xml(TokenView::Symbol(*self)),
    {
        let mut xml = String::from_str("<symbol> ");
        xml.append(self.xml_text());
        xml.append(" </symbol>");
        xml
    }
}

impl Token {
    /// The one-line XML element of this token.
    pub fn to_xml(&self) -> (r: String)
        ensures
            r@ == token_xml(self@),
    {
        match self {
            Token::Keyword(k) => k.to_xml(),
            Token::Symbol(s) => s.to_xml(),
            Token::Identifier(x) => {
                let mut xml = String::from_str("<identifier> ");
                xml.append(x.as_str());
                xml.append(" </identifier>");
                xml
            },
            Token::IntConst(x) => {
                let mut xml = String::from_str("<integerConstant> ");
                xml.append(x.as_str());
                xml.append(" </integerConstant>");
                xml
            },
            Token::StringConst(x) => {
                let mut xml = String::from_str("<stringConstant> ");
                xml.append(x.as_str());
                xml.append(" </stringConstant>");
                xml
            },
        }
    }

    /// Whether this token is of the same kind as `other`; the text of identifiers and
    /// constants is not compared.
    pub fn same_kind(&self, other: &Token) -> (r: bool)
        ensures
            r == same_kind(self@, other@),
    {
        match (self, other) {
            (Token::Keyword(x), Token::Keyword(y)) => *x == *y,
            (Token::Symbol(x), Token::Symbol(y)) => *x == *y,
            (Token::Identifier(_), Token::Identifier(_)) => true,
            (Token::IntConst(_), Token::IntConst(_)) => true,
            (Token::StringConst(_), Token::StringConst(_)) => true,
            _ => false,
        }
    }
}

} // verus!

verus! {

/// `0` to `9`.
pub open spec fn is_digit(b: u8) -> bool {
    48 <= b <= 57
}

/// A letter or an underscore: what an identifier or a reserved word starts with.
pub open spec fn is_word_start(b: u8) -> bool {
    (65 <= b <= 90) || (97 <= b <= 122) || b == 95
}

pub open spec fn is_word_byte(b: u8) -> bool {
    is_word_start(b) || is_digit(b)
}

/// Space, tab, carriage return, line feed.
pub open spec fn is_blank(b: u8) -> bool {
    b == 32 || b == 9 || b == 13 || b == 10
}

/// The end of the run of letters, digits and underscores that starts at `i`.
pub open spec fn word_end(input: Seq<u8>, i: int) -> int
    decreases input.len() - i,
{
    if 0 <= i < input.len() && is_word_byte(input[i]) {
        word_end(input, i + 1)
    } else {
        i
    }
}

/// The end of the run of decimal digits that starts at `i`.
pub open spec fn digits_end(input: Seq<u8>, i: int) -> int
    decreases input.len() - i,
{
    if 0 <= i < input.len() && is_digit(input[i]) {
        digits_end(input, i + 1)
    } else {
        i
    }
}

/// The position of the first byte `b` at or after `i`, or the length of the input.
pub open spec fn find_byte(input: Seq<u8>, i: int, b: u8) -> int
    decreases input.len() - i,
{
    if 0 <= i < input.len() && input[i] != b {
        find_byte(input, i + 1, b)
    } else {
        i
    }
}

/// The position of the first `*/` at or after `i`, or the length of the input.
pub open spec fn block_end(input: Seq<u8>, i: int) -> int
    decreases input.len() - i,
{
    if 0 <= i < input.len() && !(i + 1 < input.len() && input[i] == 42 && input[i + 1] == 47) {
        block_end(input, i + 1)
    } else {
        i
    }
}

/// Bytes read as characters, one for one.
pub open spec fn chars_of(b: Seq<u8>) -> Seq<char> {
    b.map_values(|x: u8| x as char)
}

/// The token that a word spells: a reserved word, else an identifier.
pub open spec fn word_token(w: Seq<char>) -> TokenView {
    match keyword_of(w) {
        Some(k) => TokenView::Keyword(k),
        None => TokenView::Identifier(w),
    }
}

/// What can go wrong while splitting source text into tokens.
#[derive(Debug, Clone, Copy, PartialEq, Eq, Structural)]
pub enum LexErrorKind {
    UnterminatedComment,
    UnterminatedString,
    /// The input ends inside an identifier or a reserved word.
    WordAtEnd,
    UnknownCharacter,
}

/// A lexical error and the line (counted from 1) where the offending token starts.
#[derive(Debug, Clone, Copy, PartialEq, Eq, Structural)]
pub struct LexError {
    pub kind: LexErrorKind,
    pub line: usize,
}

/// One step of the lexer at position `i` (bytes 47, 42, 10 and 34 are `/`, `*`, line feed
/// and `"`): the token found there, if any (blanks and
/// comments give none), and where the next step starts; or an error and the position of
/// the token where it arose.
pub open spec fn lex_step(input: Seq<u8>, i: int) -> Result<(Option<TokenView>, int), (LexErrorKind, int)> {
    let n = input.len() as int;
    let b = input[i];
    if b == 47 && i + 1 < n && input[i + 1] == 47 {
        let j = find_byte(input, i + 2, 10);
        Ok((None, if j < n { j + 1 } else { j }))
    } else if b == 47 && i + 1 < n && input[i + 1] == 42 {
        let j = block_end(input, i + 2);
        if j < n {
            Ok((None, j + 2))
        } else {
            Err((LexErrorKind::UnterminatedComment, i))
        }
    } else if symbol_of(b) is Some {
        Ok((Some(TokenView::Symbol(symbol_of(b)->0)), i + 1))
    } else if is_digit(b) {
        let j = digits_end(input, i + 1);
        Ok((Some(TokenView::IntConst(chars_of(input.subrange(i, j)))), j))
    } else if b == 34 {
        let j = find_byte(input, i + 1, 34);
        if j < n {
            Ok((Some(TokenView::StringConst(chars_of(input.subrange(i + 1, j)))), j + 1))
        } else {
            Err((LexErrorKind::UnterminatedString, i))
        }
    } else if is_blank(b) {
        Ok((None, i + 1))
    } else if is_word_start(b) {
        let j = word_end(input, i + 1);
        if j < n {
            Ok((Some(word_token(chars_of(input.subrange(i, j)))), j))
        } else {
            Err((LexErrorKind::WordAtEnd, i))
        }
    } else {
        Err((LexErrorKind::UnknownCharacter, i))
    }
}

pub open spec fn opt_seq(t: Option<TokenView>) -> Seq<TokenView> {
    match t {
        Some(x) => seq![x],
        None => Seq::empty(),
    }
}

/// `r` with `p` in front of its tokens.
pub open spec fn prepend(p: Seq<TokenView>, r: Result<Seq<TokenView>, (LexErrorKind, int)>) -> Result<Seq<TokenView>, (LexErrorKind, int)> {
    match r {
        Ok(s) => Ok(p + s),
        Err(e) => Err(e),
    }
}

/// The tokens of `input` from position `i` to its end, or the first error.
pub open spec fn lex_from(input: Seq<u8>, i: int) -> Result<Seq<TokenView>, (LexErrorKind, int)>
    decreases input.len() - i,
{
    if i < 0 || i >= input.len() {
        Ok(Seq::empty())
    } else {
        match lex_step(input, i) {
            Err(e) => Err(e),
            Ok((t, j)) => if j <= i || j > input.len() {
                Ok(Seq::empty())
            } else {
                prepend(opt_seq(t), lex_from(input, j))
            },
        }
    }
}

/// The number of line breaks in `s`.
pub open spec fn newlines(s: Seq<u8>) -> nat
    decreases s.len(),
{
    if s.len() == 0 {
        0
    } else {
        newlines(s.drop_last()) + if s.last() == 10 { 1nat } else { 0nat }
    }
}

/// The line, counted from 1, of position `pos`.
pub open spec fn line_at(input: Seq<u8>, pos: int) -> nat {
    1 + newlines(input.take(pos))
}

/// The line, counted from 1, on which byte `pos` of `input` stands.
pub fn line_of(input: &Vec<u8>, pos: usize) -> (r: usize)
    requires
        pos < input@.len(),
    ensures
        r == line_at(input@, pos as int),
{
    let n = input.len();
    let mut count: usize = 0;
    let mut i: usize = 0;
    while i < pos
        invariant
            i <= pos < n,
            n == input@.len(),
            count <= i,
            count == newlines(input@.take(i as int)),
        decreases pos - i,
    {
        assert(input@.take(i as int + 1).drop_last() =~= input@.take(i as int));
        if input[i] == 10 {
            count = count + 1;
        }
        i = i + 1;
    }
    count + 1
}

pub open spec fn views(ts: Seq<Token>) -> Seq<TokenView> {
    ts.map_values(|t: Token| t@)
}

/// A cursor over source bytes and the tokens read so far.
#[derive(Debug)]
pub struct Lexer {
    pub input: Vec<u8>,
    pub read_pos: usize,
    pub tokens: VecDeque<Token>,
}

impl Lexer {
    pub open spec fn source(&self) -> Seq<u8> {
        self.input@
    }

    pub open spec fn pos(&self) -> int {
        self.read_pos as int
    }

    pub open spec fn wf(&self) -> bool {
        0 <= self.pos() <= self.source().len()
    }

    /// A lexer at the start of `ch_vec`, with no tokens yet.
    pub fn new(ch_vec: Vec<u8>) -> (r: Self)
        ensures
            r.wf(),
            r.source() == ch_vec@,
            r.pos() == 0,
            r.tokens@.len() == 0,
    {
        Lexer { input: ch_vec, read_pos: 0, tokens: VecDeque::new() }
    }

    /// The next unread byte, if any, without consuming it.
    pub fn peek_next(&self) -> (r: Option<u8>)
        requires
            self.wf(),
        ensures
            self.pos() < self.source().len() ==> r == Some(self.source()[self.pos()]),
            self.pos() == self.source().len() ==> r is None,
    {
        if self.read_pos == self.input.len() {
            return None;
        }
        Some(self.input[self.read_pos])
    }

    /// Consumes and returns the next byte.
    pub fn next(&mut self) -> (r: u8)
        requires
            old(self).wf(),
            old(self).pos() < old(self).source().len(),
        ensures
            final(self).wf(),
            r == old(self).source()[old(self).pos()],
            final(self).pos() == old(self).pos() + 1,
            final(self).source() == old(self).source(),
            final(self).tokens == old(self).tokens,
    {
        let ch = self.input[self.read_pos];
        assert(self.read_pos < self.input.len());
        self.read_pos = self.read_pos + 1;
        ch
    }
}

} // verus!

verus! {

fn digit_byte(b: u8) -> (r: bool)
    ensures
        r == is_digit(b),
{
    48 <= b && b <= 57
}

fn word_start_byte(b: u8) -> (r: bool)
    ensures
        r == is_word_start(b),
{
    (65 <= b && b <= 90) || (97 <= b && b <= 122) || b == 95
}

fn word_byte(b: u8) -> (r: bool)
    ensures
        r == is_word_byte(b),
{
    word_start_byte(b) || digit_byte(b)
}

proof fn lemma_scans_bounded(input: Seq<u8>, i: int)
    requires
        0 <= i <= input.len(),
    ensures
        i <= word_end(input, i) <= input.len(),
        i <= digits_end(input, i) <= input.len(),
        i <= find_byte(input, i, 10) <= input.len(),
        i <= find_byte(input, i, 34) <= input.len(),
        i <= block_end(input, i) <= input.len(),
        block_end(input, i) < input.len() ==> block_end(input, i) + 1 < input.len(),
    decreases input.len() - i,
{
    if i < input.len() {
        lemma_scans_bounded(input, i + 1);
    }
}

/// Each step of the lexer moves forward and stays within the input.
proof fn lemma_step_advances(input: Seq<u8>, i: int)
    requires
        0 <= i < input.len(),
    ensures
        lex_step(input, i) matches Ok((_, j)) ==> i < j <= input.len(),
        lex_step(input, i) matches Err((_, p)) ==> p == i,
{
    lemma_scans_bounded(input, i + 1);
    if i + 2 <= input.len() {
        lemma_scans_bounded(input, i + 2);
    }
}

proof fn lemma_chars_push(input: Seq<u8>, i: int, j: int)
    requires
        0 <= i <= j < input.len(),
    ensures
        chars_of(input.subrange(i, j + 1)) == chars_of(input.subrange(i, j)).push(input[j] as char),
{
    assert(chars_of(input.subrange(i, j + 1)) =~= chars_of(input.subrange(i, j)).push(input[j] as char));
}

proof fn lemma_views_push(ts: Seq<Token>, t: Token)
    ensures
        views(ts.push(t)) == views(ts).push(t@),
{
    assert(views(ts.push(t)) =~= views(ts).push(t@));
}

/// Reads the rest of a word whose first byte `ch` was just consumed, and records it as a
/// reserved word or an identifier.
fn handle_keyword_or_identifier(ch: u8, lexer: &mut Lexer) -> (r: Result<(), (LexErrorKind, usize)>)
    requires
        old(lexer).wf(),
        old(lexer).pos() >= 1,
        old(lexer).source()[old(lexer).pos() - 1] == ch,
    ensures
        final(lexer).wf(),
        final(lexer).source() == old(lexer).source(),
        ({
            let input = old(lexer).source();
            let i = old(lexer).pos() - 1;
            let j = word_end(input, i + 1);
            if j < input.len() {
                &&& r is Ok
                &&& final(lexer).pos() == j
                &&& views(final(lexer).tokens@) == views(old(lexer).tokens@).push(
                    word_token(chars_of(input.subrange(i, j))),
                )
            } else {
                r == Err::<(), (LexErrorKind, usize)>((LexErrorKind::WordAtEnd, i as usize))
            }
        }),
{
    let start = lexer.read_pos - 1;
    let mut s = String::new();
    push_char(&mut s, ch as char);
    proof {
        assert(s@ =~= chars_of(lexer.input@.subrange(start as int, start + 1)));
    }
    loop
        invariant
            lexer.wf(),
            lexer.source() == old(lexer).source(),
            lexer.tokens == old(lexer).tokens,
            start == old(lexer).pos() - 1,
            start < lexer.pos(),
            word_end(lexer.source(), lexer.pos()) == word_end(lexer.source(), start + 1),
            s@ == chars_of(lexer.source().subrange(start as int, lexer.pos())),
        ensures
            lexer.pos() < lexer.source().len(),
            word_end(lexer.source(), lexer.pos()) == lexer.pos(),
        decreases lexer.source().len() - lexer.pos(),
    {
        match lexer.peek_next() {
            Some(c) => {
                if word_byte(c) {
                    proof {
                        lemma_chars_push(lexer.source(), start as int, lexer.pos());
                    }
                    push_char(&mut s, c as char);
                    lexer.next();
                } else {
                    break;
                }
            },
            None => {
                return Err((LexErrorKind::WordAtEnd, start));
            },
        }
    }
    let tok = match Keyword::to_keyword(&s) {
        Some(k) => Token::Keyword(k),
        None => Token::Identifier(s),
    };
    proof {
        lemma_views_push(lexer.tokens@, tok);
    }
    lexer.tokens.push_back(tok);
    Ok(())
}

/// Reads a string constant whose opening quote was just consumed.
fn handle_string(lexer: &mut Lexer) -> (r: Result<(), (LexErrorKind, usize)>)
    requires
        old(lexer).wf(),
        old(lexer).pos() >= 1,
    ensures
        final(lexer).wf(),
        final(lexer).source() == old(lexer).source(),
        ({
            let input = old(lexer).source();
            let i = old(lexer).pos() - 1;
            let j = find_byte(input, i + 1, 34);
            if j < input.len() {
                &&& r is Ok
                &&& final(lexer).pos() == j + 1
                &&& views(final(lexer).tokens@) == views(old(lexer).tokens@).push(
                    TokenView::StringConst(chars_of(input.subrange(i + 1, j))),
                )
            } else {
                r == Err::<(), (LexErrorKind, usize)>((LexErrorKind::UnterminatedString, i as usize))
            }
        }),
{
    let start = lexer.read_pos - 1;
    let mut s = String::new();
    proof {
        assert(s@ =~= chars_of(lexer.input@.subrange(start + 1, start + 1)));
    }
    loop
        invariant
            lexer.wf(),
            lexer.source() == old(lexer).source(),
            lexer.tokens == old(lexer).tokens,
            start == old(lexer).pos() - 1,
            start < lexer.pos(),
            find_byte(lexer.source(), lexer.pos(), 34) == find_byte(lexer.source(), start + 1, 34),
            s@ == chars_of(lexer.source().subrange(start + 1, lexer.pos())),
        ensures
            lexer.pos() < lexer.source().len(),
            lexer.source()[lexer.pos()] == 34,
        decreases lexer.source().len() - lexer.pos(),
    {
        match lexer.peek_next() {
            Some(c) => {
                if c == 34 {
                    break;
                }
                proof {
                    lemma_chars_push(lexer.source(), start + 1, lexer.pos());
                }
                push_char(&mut s, c as char);
                lexer.next();
            },
            None => {
                return Err((LexErrorKind::UnterminatedString, start));
            },
        }
    }
    lexer.next();
    let tok = Token::StringConst(s);
    proof {
        lemma_views_push(lexer.tokens@, tok);
    }
    lexer.tokens.push_back(tok);
    Ok(())
}

/// Reads the rest of an integer constant whose first digit `ch` was just consumed.
fn handle_digit(ch: u8, lexer: &mut Lexer)
    requires
        old(lexer).wf(),
        old(lexer).pos() >= 1,
        old(lexer).source()[old(lexer).pos() - 1] == ch,
    ensures
        final(lexer).wf(),
        final(lexer).source() == old(lexer).source(),
        ({
            let input = old(lexer).source();
            let i = old(lexer).pos() - 1;
            let j = digits_end(input, i + 1);
            &&& final(lexer).pos() == j
            &&& views(final(lexer).tokens@) == views(old(lexer).tokens@).push(
                TokenView::IntConst(chars_of(input.subrange(i, j))),
            )
        }),
{
    let start = lexer.read_pos - 1;
    let mut num = String::new();
    push_char(&mut num, ch as char);
    proof {
        assert(num@ =~= chars_of(lexer.input@.subrange(start as int, start + 1)));
    }
    loop
        invariant
            lexer.wf(),
            lexer.source() == old(lexer).source(),
            lexer.tokens == old(lexer).tokens,
            start == old(lexer).pos() - 1,
            start < lexer.pos(),
            digits_end(lexer.source(), lexer.pos()) == digits_end(lexer.source(), start + 1),
            num@ == chars_of(lexer.source().subrange(start as int, lexer.pos())),
        ensures
            digits_end(lexer.source(), lexer.pos()) == lexer.pos(),
        decreases lexer.source().len() - lexer.pos(),
    {
        match lexer.peek_next() {
            Some(c) => {
                if digit_byte(c) {
                    proof {
                        lemma_chars_push(lexer.source(), start as int, lexer.pos());
                    }
                    push_char(&mut num, c as char);
                    lexer.next();
                } else {
                    break;
                }
            },
            None => {
                break;
            },
        }
    }
    let tok = Token::IntConst(num);
    proof {
        lemma_views_push(lexer.tokens@, tok);
    }
    lexer.tokens.push_back(tok);
}

/// Handles a symbol byte that was just consumed: a slash may open a comment, which is
/// skipped; any other symbol is recorded as a token.
fn handle_symbol(symbol: Symbol, lexer: &mut Lexer) -> (r: Result<(), (LexErrorKind, usize)>)
    requires
        old(lexer).wf(),
        old(lexer).pos() >= 1,
        symbol_of(old(lexer).source()[old(lexer).pos() - 1]) == Some(symbol),
    ensures
        final(lexer).wf(),
        final(lexer).source() == old(lexer).source(),
        ({
            let i = old(lexer).pos() - 1;
            match lex_step(old(lexer).source(), i) {
                Ok((t, j)) => {
                    &&& r is Ok
                    &&& final(lexer).pos() == j
                    &&& views(final(lexer).tokens@) == views(old(lexer).tokens@) + opt_seq(t)
                },
                Err((k, p)) => r == Err::<(), (LexErrorKind, usize)>((k, p as usize)),
            }
        }),
{
    let start = lexer.read_pos - 1;
    let ghost input = lexer.source();
    let ghost n = input.len() as int;
    if let Symbol::Division = symbol {
        match lexer.peek_next() {
            Some(47u8) => {
                // a comment to the end of the line
                lexer.next();
                loop
                    invariant
                        lexer.wf(),
                        lexer.source() == input,
                        input == old(lexer).source(),
                        start == old(lexer).pos() - 1,
                        n == input.len(),
                        lexer.tokens == old(lexer).tokens,
                        start + 2 <= lexer.pos(),
                        input[start as int] == 47 && input[start + 1] == 47,
                        find_byte(input, lexer.pos(), 10) == find_byte(input, start + 2, 10),
                    ensures
                        find_byte(input, lexer.pos(), 10) == lexer.pos(),
                    decreases n - lexer.pos(),
                {
                    match lexer.peek_next() {
                        Some(c) => {
                            if c == 10 {
                                break;
                            }
                            lexer.next();
                        },
                        None => {
                            break;
                        },
                    }
                }
                if lexer.peek_next().is_some() {
                    lexer.next();
                }
                assert(views(lexer.tokens@) =~= views(old(lexer).tokens@) + opt_seq(None));
                return Ok(());
            },
            Some(42u8) => {
                // a block comment, up to the first `*/`
                lexer.next();
                loop
                    invariant
                        lexer.wf(),
                        lexer.source() == input,
                        input == old(lexer).source(),
                        start == old(lexer).pos() - 1,
                        n == input.len(),
                        lexer.tokens == old(lexer).tokens,
                        start + 2 <= lexer.pos(),
                        input[start as int] == 47 && input[start + 1] == 42,
                        block_end(input, lexer.pos()) == block_end(input, start + 2),
                    ensures
                        lexer.pos() + 1 < n,
                        input[lexer.pos()] == 42 && input[lexer.pos() + 1] == 47,
                    decreases n - lexer.pos(),
                {
                    match lexer.peek_next() {
                        Some(c) => {
                            if c == 42 && lexer.read_pos < lexer.input.len() - 1
                                && lexer.input[lexer.read_pos + 1] == 47 {
                                break;
                            }
                            lexer.next();
                        },
                        None => {
                            return Err((LexErrorKind::UnterminatedComment, start));
                        },
                    }
                }
                lexer.next();
                lexer.next();
                assert(views(lexer.tokens@) =~= views(old(lexer).tokens@) + opt_seq(None));
                return Ok(());
            },
            _ => {},
        }
    }
    let tok = Token::Symbol(symbol);
    proof {
        lemma_views_push(lexer.tokens@, tok);
        assert(views(lexer.tokens@).push(tok@) =~= views(lexer.tokens@) + opt_seq(Some(tok@)));
    }
    lexer.tokens.push_back(tok);
    Ok(())
}

/// Reads one step at the cursor: a token, a run of blanks, or a comment.
fn lex_token(lexer: &mut Lexer) -> (r: Result<(), (LexErrorKind, usize)>)
    requires
        old(lexer).wf(),
        old(lexer).pos() < old(lexer).source().len(),
    ensures
        final(lexer).wf(),
        final(lexer).source() == old(lexer).source(),
        match lex_step(old(lexer).source(), old(lexer).pos()) {
            Ok((t, j)) => {
                &&& r is Ok
                &&& final(lexer).pos() == j
                &&& views(final(lexer).tokens@) == views(old(lexer).tokens@) + opt_seq(t)
            },
            Err((k, p)) => r == Err::<(), (LexErrorKind, usize)>((k, p as usize)),
        },
{
    let start = lexer.read_pos;
    let ghost input = lexer.source();
    let ch = lexer.next();
    if let Some(symbol) = Symbol::to_symbol(ch) {
        return handle_symbol(symbol, lexer);
    }
    let ghost old_views = views(lexer.tokens@);
    if digit_byte(ch) {
        handle_digit(ch, lexer);
        assert(views(lexer.tokens@) =~= old_views + opt_seq(lex_step(input, start as int)->Ok_0.0));
        Ok(())
    } else if ch == 34 {
        let r = handle_string(lexer);
        assert(r is Ok ==> views(lexer.tokens@) =~= old_views + opt_seq(lex_step(input, start as int)->Ok_0.0));
        r
    } else if ch == 32 || ch == 9 || ch == 13 || ch == 10 {
        assert(views(lexer.tokens@) =~= old_views + opt_seq(None));
        Ok(())
    } else if word_start_byte(ch) {
        let r = handle_keyword_or_identifier(ch, lexer);
        assert(r is Ok ==> views(lexer.tokens@) =~= old_views + opt_seq(lex_step(input, start as int)->Ok_0.0));
        r
    } else {
        Err((LexErrorKind::UnknownCharacter, start))
    }
}

proof fn lemma_prepend_assoc(p: Seq<TokenView>, q: Seq<TokenView>, r: Result<Seq<TokenView>, (LexErrorKind, int)>)
    ensures
        prepend(p, prepend(q, r)) == prepend(p + q, r),
{
    if let Ok(s) = r {
        assert(p + (q + s) =~= (p + q) + s);
    }
}

/// Splits the unread input into tokens, appending them to `lexer.tokens`; stops at the
/// first lexical error.
pub fn tokenize(lexer: &mut Lexer) -> (r: Result<(), LexError>)
    requires
        old(lexer).wf(),
    ensures
        final(lexer).source() == old(lexer).source(),
        match lex_from(old(lexer).source(), old(lexer).pos()) {
            Ok(ts) => r is Ok && views(final(lexer).tokens@) == views(old(lexer).tokens@) + ts,
            Err((k, p)) => r == Err::<(), LexError>(
                LexError { kind: k, line: line_at(old(lexer).source(), p) as usize },
            ),
        },
{
    let ghost input = lexer.source();
    let ghost start = lexer.pos();
    let ghost t0 = views(lexer.tokens@);
    let ghost mut produced: Seq<TokenView> = Seq::empty();
    assert(t0 + produced =~= t0);
    loop
        invariant
            lexer.wf(),
            lexer.source() == input,
            input == old(lexer).source(),
            start == old(lexer).pos(),
            t0 == views(old(lexer).tokens@),
            views(lexer.tokens@) == t0 + produced,
            lex_from(input, start) == prepend(produced, lex_from(input, lexer.pos())),
        decreases input.len() - lexer.pos(),
    {
        if lexer.peek_next().is_none() {
            assert(produced + Seq::<TokenView>::empty() =~= produced);
            return Ok(());
        }
        let ghost before = lexer.pos();
        proof {
            lemma_step_advances(input, before);
        }
        match lex_token(lexer) {
            Ok(()) => {
                proof {
                    let t = lex_step(input, before)->Ok_0.0;
                    lemma_prepend_assoc(produced, opt_seq(t), lex_from(input, lexer.pos()));
                    assert(t0 + produced + opt_seq(t) =~= t0 + (produced + opt_seq(t)));
                    produced = produced + opt_seq(t);
                }
            },
            Err((kind, pos)) => {
                let line = line_of(&lexer.input, pos);
                return Err(LexError { kind, line });
            },
        }
    }
}

} // verus!
