//! Compilation of a whole source text.
use vstd::prelude::*;

use crate::error::CompileError;
use crate::grammar::{initial, translation};
use crate::lexer::Lexer;
use crate::parser::Parser;
use crate::semantic::SemanticAnalyzer;

verus! {

/// Translates `source` into an HTML document, or reports its first error.
pub fn compile(source: &str) -> (r: Result<String, CompileError>)
    ensures
        match translation(source@) {
            Ok(html) => r is Ok && r->Ok_0@ == html,
            Err(e) => r is Err && r->Err_0@ == e,
        },
{
    let mut parser = Parser::new(Lexer::new(source), SemanticAnalyzer::new());
    assert(parser.state() == initial());
    match parser.parse_lolcode() {
        Ok(()) => Ok(parser.into_semantic().into_output()),
        Err(e) => Err(e),
    }
}

/// A compiler that keeps the document of its last successful compilation.
pub struct LolCompiler {
    semantic: SemanticAnalyzer,
}

impl LolCompiler {
    /// The document held: empty before a compilation and after a failed one.
    pub closed spec fn out(&self) -> Seq<char> {
        self.semantic.out()
    }

    /// The scopes held: those in force at the end of the last successful
    /// compilation, else one empty global scope.
    pub closed spec fn scopes(&self) -> Seq<Map<Seq<char>, Seq<char>>> {
        self.semantic.scopes()
    }

    pub fn new() -> (r: LolCompiler)
        ensures
            r.out() == Seq::<char>::empty(),
            r.scopes() == seq![Map::<Seq<char>, Seq<char>>::empty()],
    {
        LolCompiler { semantic: SemanticAnalyzer::new() }
    }

    /// Compiles `source` with fresh scopes and a fresh output buffer.
    pub fn compile(&mut self, source: &str) -> (r: Result<(), CompileError>)
        ensures
            match translation(source@) {
                Ok(html) => r is Ok && final(self).out() == html,
                Err(e) => r is Err && r->Err_0@ == e && final(self).out() == Seq::<char>::empty()
                    && final(self).scopes() == seq![Map::<Seq<char>, Seq<char>>::empty()],
            },
    {
        let mut parser = Parser::new(Lexer::new(source), SemanticAnalyzer::new());
        assert(parser.state() == initial());
        match parser.parse_lolcode() {
            Ok(()) => {
                self.semantic = parser.into_semantic();
                Ok(())
            },
            Err(e) => {
                self.semantic = SemanticAnalyzer::new();
                Err(e)
            },
        }
    }

    /// The document held.
    pub fn get_output(&self) -> (r: &str)
        ensures
            r@ == self.out(),
    {
        self.semantic.get_output()
    }
}

} // verus!
