use vstd::prelude::*;
use vstd::string::{StrSliceExecFns, StringSliceAdditionalSpecFns};
use crate::analyzer::{class_code, code_gen};
use crate::grammar::class_len;
use crate::lexer::{LexError, Lexer, lex_from, line_at, tokenize, views};
use crate::parser::{class_shaped, NonTerminalElement, ParseError, ProgramElement, TokenParser, handle_class, leaves, rest};
use crate::symbols::CompileError;

verus! {

/// Why a compilation unit produced no output.
#[derive(Debug, Clone, Copy, PartialEq, Eq, Structural)]
pub enum CompilerError {
    Lex(LexError),
    Parse(ParseError),
    Compile(CompileError),
}

/// The tokens of a whole source text, or its first lexical error.
pub open spec fn source_tokens(contents: &str) -> Result<Seq<crate::lexer::TokenView>, CompilerError> {
    match lex_from(contents.spec_bytes(), 0) {
        Ok(ts) => Ok(ts),
        Err((k, p)) => Err(CompilerError::Lex(LexError { kind: k, line: line_at(contents.spec_bytes(), p) as usize })),
    }
}

/// Lexes and parses the source text of one class. The tree spells exactly the tokens of
/// the text: no token is dropped, added or reordered.
pub fn create_program_tree(contents: &str) -> (r: Result<NonTerminalElement, CompilerError>)
    ensures
        match source_tokens(contents) {
            Err(e) => r matches Err(x) && x == e,
            Ok(ts) => {
                &&& (r is Ok <==> class_len(ts) == Some(ts.len()))
                &&& r matches Ok(tree) ==> leaves(ProgramElement::NonTerminal(tree)) == ts
                    && tree.nt_type == crate::parser::NonTerminalType::Class && class_shaped(tree)
                &&& r matches Err(x) ==> x is Parse
            },
        },
{
    let ch_vec = contents.as_bytes_vec();
    let mut lexer = Lexer::new(ch_vec);
    match tokenize(&mut lexer) {
        Ok(()) => {},
        Err(e) => {
            return Err(CompilerError::Lex(e));
        },
    }
    proof {
        assert(views(lexer.tokens@) =~= views(Seq::<crate::lexer::Token>::empty()) + views(lexer.tokens@));
    }
    let mut parser = TokenParser { tokens: lexer.tokens };
    let tree = match handle_class(&mut parser) {
        Ok(t) => t,
        Err(e) => {
            return Err(CompilerError::Parse(e));
        },
    };
    if parser.tokens.len() != 0 {
        return Err(CompilerError::Parse(ParseError::TrailingTokens));
    }
    assert(rest(&parser).len() == 0);
    proof {
        assert(rest(&parser) =~= Seq::empty());
    }
    Ok(tree)
}

/// Compiles the source text of one class to bytecode: lexical errors as the lexer gives
/// them; a parse error exactly when the tokens are not one class; otherwise the code that
/// the generator gives for the class's parse tree, or its error.
pub fn compile(contents: &str) -> (r: Result<String, CompilerError>)
    ensures
        match source_tokens(contents) {
            Err(e) => r matches Err(x) && x == e,
            Ok(ts) => if class_len(ts) == Some(ts.len()) {
                exists|tree: NonTerminalElement|
                    #[trigger] class_shaped(tree) && leaves(ProgramElement::NonTerminal(tree)) == ts
                    && match class_code(tree) {
                        Ok(c) => r matches Ok(s) && s@ == c,
                        Err(e) => r == Err::<String, CompilerError>(CompilerError::Compile(e)),
                    }
            } else {
                r matches Err(CompilerError::Parse(_))
            },
        },
{
    let tree = create_program_tree(contents)?;
    let ghost t = tree;
    match code_gen(tree) {
        Ok(s) => Ok(s),
        Err(e) => Err(CompilerError::Compile(e)),
    }
}

} // verus!
