use jack_compiler::lexer::{tokenize, Keyword, LexError, LexErrorKind, Lexer, Symbol, Token};
use jack_compiler::parser::{handle_class, NonTerminalElement, NonTerminalType, ParseError, ProgramElement, TokenParser};
use jack_compiler::pipeline::{create_program_tree, CompilerError};

fn lex(src: &str) -> Result<Vec<Token>, LexError> {
    let mut lexer = Lexer::new(src.as_bytes().to_vec());
    tokenize(&mut lexer)?;
    Ok(lexer.tokens.into_iter().collect())
}

fn xml_of(tokens: &[Token]) -> Vec<String> {
    tokens.iter().map(|t| t.to_xml()).collect()
}

#[test]
fn lexer_reads_every_kind_of_token() {
    let tokens = lex("class Foo_1 { let x = 42; \"a b\" }\n").unwrap();
    assert_eq!(
        xml_of(&tokens),
        vec![
            "<keyword> class </keyword>",
            "<identifier> Foo_1 </identifier>",
            "<symbol> { </symbol>",
            "<keyword> let </keyword>",
            "<identifier> x </identifier>",
            "<symbol> = </symbol>",
            "<integerConstant> 42 </integerConstant>",
            "<symbol> ; </symbol>",
            "<stringConstant> a b </stringConstant>",
            "<symbol> } </symbol>",
        ]
    );
}

#[test]
fn lexer_skips_comments() {
    let tokens = lex("// line\n/* block\n * more */ x / y // end").unwrap();
    assert_eq!(
        xml_of(&tokens),
        vec![
            "<identifier> x </identifier>",
            "<symbol> / </symbol>",
            "<identifier> y </identifier>",
        ]
    );
}

#[test]
fn symbols_are_escaped_in_xml() {
    let tokens = lex("a < b > c & d;").unwrap();
    assert_eq!(tokens[1].to_xml(), "<symbol> &lt; </symbol>");
    assert_eq!(tokens[3].to_xml(), "<symbol> &gt; </symbol>");
    assert_eq!(tokens[5].to_xml(), "<symbol> &amp; </symbol>");
}

#[test]
fn keywords_and_symbols_by_text() {
    assert_eq!(Keyword::to_keyword(&"constructor".to_string()), Some(Keyword::Constructor));
    assert_eq!(Keyword::to_keyword(&"Constructor".to_string()), None);
    assert_eq!(Symbol::to_symbol(b'~'), Some(Symbol::Not));
    assert_eq!(Symbol::to_symbol(b'#'), None);
}

#[test]
fn unknown_character_reports_its_line() {
    assert_eq!(
        lex("class\nA { # }").err(),
        Some(LexError { kind: LexErrorKind::UnknownCharacter, line: 2 })
    );
}

#[test]
fn unterminated_string() {
    assert_eq!(
        lex("x\n\"abc\n").err(),
        Some(LexError { kind: LexErrorKind::UnterminatedString, line: 2 })
    );
}

#[test]
fn unterminated_block_comment() {
    assert_eq!(
        lex("x /* never closed").err(),
        Some(LexError { kind: LexErrorKind::UnterminatedComment, line: 1 })
    );
}

#[test]
fn word_at_end_of_input() {
    assert_eq!(lex("{ abc").err(), Some(LexError { kind: LexErrorKind::WordAtEnd, line: 1 }));
}

#[test]
fn peek_and_next_walk_the_bytes() {
    let mut lexer = Lexer::new(b"ab".to_vec());
    assert_eq!(lexer.peek_next(), Some(b'a'));
    assert_eq!(lexer.next(), b'a');
    assert_eq!(lexer.next(), b'b');
    assert_eq!(lexer.peek_next(), None);
}

fn leaves(e: &NonTerminalElement, out: &mut Vec<String>) {
    for c in &e.children {
        match c {
            jack_compiler::parser::ProgramElement::Terminal(t) => out.push(t.to_xml()),
            jack_compiler::parser::ProgramElement::NonTerminal(n) => leaves(n, out),
        }
    }
}

#[test]
fn parse_tree_spells_the_tokens() {
    let src = "class P { field int x, y; method int f(int a, P b) { var int c; if (a < 1) { let c = b.g(a, -x); } else { while (~c) { do f(c[2]); } } return; } }";
    let tokens = lex(src).unwrap();
    let tree = create_program_tree(src).unwrap();
    assert_eq!(tree.nt_type, NonTerminalType::Class);
    let mut spelled = Vec::new();
    leaves(&tree, &mut spelled);
    assert_eq!(spelled, xml_of(&tokens));
}

#[test]
fn parse_tree_xml() {
    let tree = create_program_tree("class A { static int n; }").unwrap();
    assert_eq!(
        tree.to_xml(),
        "<class>\n  <keyword> class </keyword>\n  <identifier> A </identifier>\n  <symbol> { </symbol>\n  <classVarDec>\n    <keyword> static </keyword>\n    <keyword> int </keyword>\n    <identifier> n </identifier>\n    <symbol> ; </symbol>\n  </classVarDec>\n  <symbol> } </symbol>\n</class>\n"
    );
}

#[test]
fn new_node_is_empty() {
    let n = NonTerminalElement::new(NonTerminalType::Term);
    assert_eq!(n.nt_type, NonTerminalType::Term);
    assert!(n.children.is_empty());
}

#[test]
fn handle_class_leaves_what_follows() {
    let mut parser = TokenParser { tokens: lex("class A { } x;").unwrap().into_iter().collect() };
    let tree = handle_class(&mut parser).unwrap();
    assert_eq!(tree.children.len(), 4);
    assert_eq!(parser.tokens.len(), 2);
}

#[test]
fn parse_errors() {
    assert_eq!(
        create_program_tree("class A { x }").err(),
        Some(CompilerError::Parse(ParseError::UnexpectedToken))
    );
    assert_eq!(
        create_program_tree("class A {").err(),
        Some(CompilerError::Parse(ParseError::UnexpectedEnd))
    );
    assert_eq!(
        create_program_tree("class A { } }").err(),
        Some(CompilerError::Parse(ParseError::TrailingTokens))
    );
}

#[test]
fn xml_indents_every_line_of_a_string_constant() {
    let term = NonTerminalElement {
        nt_type: NonTerminalType::Term,
        children: vec![ProgramElement::Terminal(Token::StringConst("a\nb".to_string()))],
    };
    let xml = term.to_xml();
    assert_eq!(xml, "<term>\n  <stringConstant> a\n  b </stringConstant>\n</term>\n");
    assert_eq!(xml.len(), 58);
}

#[test]
fn xml_drops_carriage_return_before_line_feed_at_each_level() {
    let term = NonTerminalElement {
        nt_type: NonTerminalType::Term,
        children: vec![ProgramElement::Terminal(Token::StringConst("a\r\r\nb".to_string()))],
    };
    let expr = NonTerminalElement {
        nt_type: NonTerminalType::Expression,
        children: vec![ProgramElement::NonTerminal(term)],
    };
    assert_eq!(
        expr.to_xml(),
        "<expression>\n  <term>\n    <stringConstant> a\n    b </stringConstant>\n  </term>\n</expression>\n"
    );
}

#[test]
fn terminal_xml_ends_with_line_feed() {
    let leaf = ProgramElement::Terminal(Token::Keyword(Keyword::Class));
    assert_eq!(leaf.to_xml(), "<keyword> class </keyword>\n");
}
