//! The recursive-descent parser: emits HTML as it recognizes each production.
use vstd::prelude::*;

use crate::error::{CompileError, SyntaxError};
use crate::grammar::{
    advance, body, comment, comments, document, element, elements, expect, head, inner,
    inner_element, items, more_items, lemma_comment, lemma_element, lemma_inner_element, lemma_tagged, list,
    newline, paragraph, plain_text, rank, tagged, var_define, var_use, PState, Step,
};
use crate::keyword::Keyword;
use crate::lexer::{Lexeme, Lexer, Token};
use crate::semantic::SemanticAnalyzer;

verus! {

/// A parse in progress over one lexer and one semantic analyzer.
pub struct Parser {
    lexer: Lexer,
    current: Token,
    semantic: SemanticAnalyzer,
}

impl Parser {
    /// The source text under the lexer.
    pub closed spec fn src(&self) -> Seq<char> {
        self.lexer.src()
    }

    /// The parse state: current token, lexer position, scopes and output.
    pub closed spec fn state(&self) -> PState {
        PState {
            tok: self.current@,
            pos: self.lexer.pos(),
            scopes: self.semantic.scopes(),
            out: self.semantic.out(),
        }
    }

    pub closed spec fn wf(&self) -> bool {
        self.lexer.wf() && self.semantic.wf()
    }

    /// The parse came to the state `step` gives, or stopped with its error.
    pub open spec fn reached(&self, r: Result<(), CompileError>, step: Step) -> bool {
        match step {
            Ok(s) => r is Ok && self.wf() && self.state() == s,
            Err(e) => r is Err && r->Err_0@ == e,
        }
    }

    pub proof fn lemma_wf(&self)
        requires
            self.wf(),
        ensures
            self.state().in_bounds(self.src()),
            self.state().scopes.len() >= 1,
    {
        self.lexer.lemma_wf();
        self.semantic.lemma_wf();
    }

    /// A parser that has read no token yet.
    pub fn new(lexer: Lexer, semantic: SemanticAnalyzer) -> (r: Parser)
        requires
            lexer.wf(),
            semantic.wf(),
        ensures
            r.wf(),
            r.src() == lexer.src(),
            r.state() == (PState {
                tok: Lexeme::End,
                pos: lexer.pos(),
                scopes: semantic.scopes(),
                out: semantic.out(),
            }),
    {
        Parser { lexer, current: Token::End, semantic }
    }

    /// Hands back the semantic analyzer, with the scopes and output of the parse.
    pub fn into_semantic(self) -> (r: SemanticAnalyzer)
        requires
            self.wf(),
        ensures
            r.wf(),
            r.scopes() == self.state().scopes,
            r.out() == self.state().out,
    {
        self.semantic
    }

    fn next_token(&mut self) -> (r: Result<(), CompileError>)
        requires
            old(self).wf(),
        ensures
            final(self).src() == old(self).src(),
            final(self).reached(r, advance(old(self).src(), old(self).state())),
    {
        match self.lexer.next_token() {
            Ok(t) => {
                self.current = t;
                Ok(())
            },
            Err(e) => Err(e),
        }
    }

    fn matches(&self, k: Keyword) -> (r: bool)
        ensures
            r == (self.state().tok == Lexeme::Directive(k)),
    {
        match &self.current {
            Token::Directive(c) => *c == k,
            _ => false,
        }
    }

    fn at_end(&self) -> (r: bool)
        ensures
            r == (self.state().tok is End),
    {
        match &self.current {
            Token::End => true,
            _ => false,
        }
    }

    /// The current token's text, where it is a text token.
    fn text(&self) -> (r: Option<String>)
        ensures
            match self.state().tok {
                Lexeme::Text(t) => r is Some && r->Some_0@ == t,
                _ => r is None,
            },
    {
        match &self.current {
            Token::Text(t) => Some(t.clone()),
            _ => None,
        }
    }

    fn expect(&mut self, k: Keyword) -> (r: Result<(), CompileError>)
        requires
            old(self).wf(),
        ensures
            final(self).src() == old(self).src(),
            final(self).reached(r, expect(old(self).src(), old(self).state(), k)),
    {
        if self.matches(k) {
            self.next_token()
        } else {
            Err(CompileError::Syntax(SyntaxError::Expected(k)))
        }
    }

    fn emit(&mut self, html: &str)
        requires
            old(self).wf(),
        ensures
            final(self).wf(),
            final(self).src() == old(self).src(),
            final(self).state() == old(self).state().emit(html@),
    {
        self.semantic.emit(html);
    }

    fn parse_tagged(&mut self, k: Keyword, open: &str, close: &str) -> (r: Result<(), CompileError>)
        requires
            old(self).wf(),
        ensures
            final(self).src() == old(self).src(),
            final(self).reached(r, tagged(old(self).src(), old(self).state(), k, open@, close@)),
    {
        if let Err(e) = self.expect(k) {
            return Err(e);
        }
        let t = match self.text() {
            Some(t) => t,
            None => return Err(CompileError::Syntax(SyntaxError::EmptyContent(k))),
        };
        if let Err(e) = self.next_token() {
            return Err(e);
        }
        if let Err(e) = self.expect(Keyword::Mkay) {
            return Err(e);
        }
        self.emit(open);
        self.emit(t.as_str());
        self.emit(close);
        Ok(())
    }

    /// `#GIMMEH TITLE Text #MKAY`.
    fn parse_title(&mut self) -> (r: Result<(), CompileError>)
        requires
            old(self).wf(),
        ensures
            final(self).src() == old(self).src(),
            final(self).reached(r, tagged(old(self).src(), old(self).state(), Keyword::GimmehTitle, "<title>"@, "</title>\n"@)),
    {
        self.parse_tagged(Keyword::GimmehTitle, "<title>", "</title>\n")
    }

    /// `#GIMMEH BOLD Text #MKAY`.
    fn parse_bold(&mut self) -> (r: Result<(), CompileError>)
        requires
            old(self).wf(),
        ensures
            final(self).src() == old(self).src(),
            final(self).reached(r, tagged(old(self).src(), old(self).state(), Keyword::GimmehBold, "<b>"@, "</b>"@)),
    {
        self.parse_tagged(Keyword::GimmehBold, "<b>", "</b>")
    }

    /// `#GIMMEH ITALICS Text #MKAY`.
    fn parse_italics(&mut self) -> (r: Result<(), CompileError>)
        requires
            old(self).wf(),
        ensures
            final(self).src() == old(self).src(),
            final(self).reached(r, tagged(old(self).src(), old(self).state(), Keyword::GimmehItalics, "<i>"@, "</i>"@)),
    {
        self.parse_tagged(Keyword::GimmehItalics, "<i>", "</i>")
    }

    /// `#GIMMEH SOUNDZ Address #MKAY`.
    fn parse_audio(&mut self) -> (r: Result<(), CompileError>)
        requires
            old(self).wf(),
        ensures
            final(self).src() == old(self).src(),
            final(self).reached(r, tagged(old(self).src(), old(self).state(), Keyword::GimmehSoundz, "<audio controls><source src=\""@, "\"></audio>\n"@)),
    {
        self.parse_tagged(Keyword::GimmehSoundz, "<audio controls><source src=\"", "\"></audio>\n")
    }

    /// `#GIMMEH VIDZ Address #MKAY`.
    fn parse_video(&mut self) -> (r: Result<(), CompileError>)
        requires
            old(self).wf(),
        ensures
            final(self).src() == old(self).src(),
            final(self).reached(r, tagged(old(self).src(), old(self).state(), Keyword::GimmehVidz, "<iframe src=\""@, "\"></iframe>\n"@)),
    {
        self.parse_tagged(Keyword::GimmehVidz, "<iframe src=\"", "\"></iframe>\n")
    }

    /// `#GIMMEH ITEM Text #MKAY`.
    fn parse_inner_list(&mut self) -> (r: Result<(), CompileError>)
        requires
            old(self).wf(),
        ensures
            final(self).src() == old(self).src(),
            final(self).reached(r, tagged(old(self).src(), old(self).state(), Keyword::GimmehItem, "<li>"@, "</li>\n"@)),
    {
        self.parse_tagged(Keyword::GimmehItem, "<li>", "</li>\n")
    }

    fn parse_comment(&mut self) -> (r: Result<(), CompileError>)
        requires
            old(self).wf(),
        ensures
            final(self).src() == old(self).src(),
            final(self).reached(r, comment(old(self).src(), old(self).state())),
    {
        if let Err(e) = self.expect(Keyword::Obtw) {
            return Err(e);
        }
        match self.text() {
            Some(t) => {
                if let Err(e) = self.next_token() {
                    return Err(e);
                }
                if let Err(e) = self.expect(Keyword::Tldr) {
                    return Err(e);
                }
                self.emit("<!-- ");
                self.emit(t.as_str());
                self.emit(" -->\n");
            },
            None => {
                if let Err(e) = self.expect(Keyword::Tldr) {
                    return Err(e);
                }
                self.emit("<!-- ");
                self.emit(" -->\n");
            },
        }
        Ok(())
    }

    fn parse_head(&mut self) -> (r: Result<(), CompileError>)
        requires
            old(self).wf(),
        ensures
            final(self).src() == old(self).src(),
            final(self).reached(r, head(old(self).src(), old(self).state())),
    {
        if let Err(e) = self.expect(Keyword::MaekHead) {
            return Err(e);
        }
        self.emit("<head>\n");
        if let Err(e) = self.parse_title() {
            return Err(e);
        }
        if let Err(e) = self.expect(Keyword::Oic) {
            return Err(e);
        }
        self.emit("</head>\n");
        Ok(())
    }

    fn parse_newline(&mut self) -> (r: Result<(), CompileError>)
        requires
            old(self).wf(),
        ensures
            final(self).src() == old(self).src(),
            final(self).reached(r, newline(old(self).src(), old(self).state())),
    {
        if let Err(e) = self.expect(Keyword::GimmehNewline) {
            return Err(e);
        }
        self.emit("<br>\n");
        Ok(())
    }

    fn parse_text(&mut self, t: &String) -> (r: Result<(), CompileError>)
        requires
            old(self).wf(),
        ensures
            final(self).src() == old(self).src(),
            final(self).reached(r, plain_text(old(self).src(), old(self).state(), t@)),
    {
        self.emit(t.as_str());
        self.emit(" ");
        self.next_token()
    }

    fn parse_variable_define(&mut self) -> (r: Result<(), CompileError>)
        requires
            old(self).wf(),
        ensures
            final(self).src() == old(self).src(),
            final(self).reached(r, var_define(old(self).src(), old(self).state())),
    {
        if let Err(e) = self.expect(Keyword::IHaz) {
            return Err(e);
        }
        let name = match self.text() {
            Some(n) => n,
            None => return Err(CompileError::Syntax(SyntaxError::EmptyContent(Keyword::IHaz))),
        };
        if let Err(e) = self.next_token() {
            return Err(e);
        }
        if let Err(e) = self.expect(Keyword::ItIz) {
            return Err(e);
        }
        let value = match self.text() {
            Some(v) => v,
            None => return Err(CompileError::Syntax(SyntaxError::EmptyContent(Keyword::ItIz))),
        };
        if let Err(e) = self.next_token() {
            return Err(e);
        }
        if let Err(e) = self.expect(Keyword::Mkay) {
            return Err(e);
        }
        self.semantic.define_variable(name, value);
        Ok(())
    }

    fn parse_variable_use(&mut self) -> (r: Result<(), CompileError>)
        requires
            old(self).wf(),
        ensures
            final(self).src() == old(self).src(),
            final(self).reached(r, var_use(old(self).src(), old(self).state())),
    {
        if let Err(e) = self.expect(Keyword::LemmeSee) {
            return Err(e);
        }
        let name = match self.text() {
            Some(n) => n,
            None => return Err(CompileError::Syntax(SyntaxError::EmptyContent(Keyword::LemmeSee))),
        };
        if let Err(e) = self.next_token() {
            return Err(e);
        }
        if let Err(e) = self.expect(Keyword::Mkay) {
            return Err(e);
        }
        match self.semantic.lookup_variable(&name) {
            Ok(value) => {
                self.emit(value.as_str());
                Ok(())
            },
            Err(e) => Err(e),
        }
    }

    fn parse_list_items(&mut self) -> (r: Result<(), CompileError>)
        requires
            old(self).wf(),
        ensures
            final(self).src() == old(self).src(),
            final(self).reached(r, items(old(self).src(), old(self).state())),
    {
        if !self.matches(Keyword::GimmehItem) {
            return Err(CompileError::Syntax(SyntaxError::EmptyList));
        }
        let ghost src = self.src();
        let ghost s0 = self.state();
        proof {
            self.lemma_wf();
        }
        while self.matches(Keyword::GimmehItem)
            invariant
                self.wf(),
                self.src() == src,
                src == old(self).src(),
                s0 == old(self).state(),
                s0.in_bounds(src),
                self.state().in_bounds(src),
                more_items(src, s0) == more_items(src, self.state()),
            decreases rank(src, self.state()),
        {
            let ghost before = self.state();
            proof {
                lemma_tagged(src, before, Keyword::GimmehItem, "<li>"@, "</li>\n"@);
            }
            if let Err(e) = self.parse_inner_list() {
                return Err(e);
            }
        }
        Ok(())
    }

    fn parse_list(&mut self) -> (r: Result<(), CompileError>)
        requires
            old(self).wf(),
        ensures
            final(self).src() == old(self).src(),
            final(self).reached(r, list(old(self).src(), old(self).state())),
    {
        if let Err(e) = self.expect(Keyword::MaekList) {
            return Err(e);
        }
        self.emit("<ul>\n");
        self.semantic.push_scope();
        if let Err(e) = self.parse_list_items() {
            return Err(e);
        }
        if let Err(e) = self.expect(Keyword::Oic) {
            return Err(e);
        }
        self.semantic.pop_scope();
        self.emit("</ul>\n");
        Ok(())
    }

    fn parse_inner_element(&mut self) -> (r: Result<(), CompileError>)
        requires
            old(self).wf(),
        ensures
            final(self).src() == old(self).src(),
            final(self).reached(r, inner_element(old(self).src(), old(self).state())),
    {
        if self.matches(Keyword::GimmehBold) {
            self.parse_bold()
        } else if self.matches(Keyword::GimmehItalics) {
            self.parse_italics()
        } else if self.matches(Keyword::GimmehSoundz) {
            self.parse_audio()
        } else if self.matches(Keyword::GimmehVidz) {
            self.parse_video()
        } else if self.matches(Keyword::GimmehNewline) {
            self.parse_newline()
        } else if self.matches(Keyword::MaekList) {
            self.parse_list()
        } else if self.matches(Keyword::IHaz) {
            self.parse_variable_define()
        } else if self.matches(Keyword::LemmeSee) {
            self.parse_variable_use()
        } else {
            match self.text() {
                Some(t) => self.parse_text(&t),
                None => match &self.current {
                    Token::Directive(k) => Err(CompileError::Syntax(SyntaxError::UnexpectedToken(*k))),
                    _ => Err(CompileError::Syntax(SyntaxError::MissingClose)),
                },
            }
        }
    }

    fn parse_inner_paragraph(&mut self) -> (r: Result<(), CompileError>)
        requires
            old(self).wf(),
        ensures
            final(self).src() == old(self).src(),
            final(self).reached(r, inner(old(self).src(), old(self).state())),
    {
        let ghost src = self.src();
        let ghost s0 = self.state();
        proof {
            self.lemma_wf();
        }
        while !self.at_end() && !self.matches(Keyword::Oic)
            invariant
                self.wf(),
                self.src() == src,
                src == old(self).src(),
                s0 == old(self).state(),
                s0.in_bounds(src),
                self.state().in_bounds(src),
                inner(src, s0) == inner(src, self.state()),
            decreases rank(src, self.state()),
        {
            let ghost before = self.state();
            proof {
                lemma_inner_element(src, before);
            }
            if let Err(e) = self.parse_inner_element() {
                return Err(e);
            }
        }
        Ok(())
    }

    fn parse_paragraph(&mut self) -> (r: Result<(), CompileError>)
        requires
            old(self).wf(),
        ensures
            final(self).src() == old(self).src(),
            final(self).reached(r, paragraph(old(self).src(), old(self).state())),
    {
        if let Err(e) = self.expect(Keyword::MaekParagraf) {
            return Err(e);
        }
        self.emit("<p>");
        self.semantic.push_scope();
        if let Err(e) = self.parse_inner_paragraph() {
            return Err(e);
        }
        if !self.matches(Keyword::Oic) {
            return Err(CompileError::Syntax(SyntaxError::Expected(Keyword::Oic)));
        }
        if let Err(e) = self.next_token() {
            return Err(e);
        }
        self.semantic.pop_scope();
        self.emit("</p>\n");
        Ok(())
    }

    fn parse_element(&mut self) -> (r: Result<(), CompileError>)
        requires
            old(self).wf(),
        ensures
            final(self).src() == old(self).src(),
            final(self).reached(r, element(old(self).src(), old(self).state())),
    {
        if self.matches(Keyword::MaekParagraf) {
            self.parse_paragraph()
        } else {
            self.parse_inner_element()
        }
    }

    fn parse_elements(&mut self) -> (r: Result<(), CompileError>)
        requires
            old(self).wf(),
        ensures
            final(self).src() == old(self).src(),
            final(self).reached(r, elements(old(self).src(), old(self).state())),
    {
        let ghost src = self.src();
        let ghost s0 = self.state();
        proof {
            self.lemma_wf();
        }
        while !self.at_end() && !self.matches(Keyword::Kthxbye)
            invariant
                self.wf(),
                self.src() == src,
                src == old(self).src(),
                s0 == old(self).state(),
                s0.in_bounds(src),
                self.state().in_bounds(src),
                elements(src, s0) == elements(src, self.state()),
            decreases rank(src, self.state()),
        {
            let ghost before = self.state();
            proof {
                lemma_element(src, before);
            }
            if let Err(e) = self.parse_element() {
                return Err(e);
            }
        }
        Ok(())
    }

    fn parse_comments(&mut self) -> (r: Result<(), CompileError>)
        requires
            old(self).wf(),
        ensures
            final(self).src() == old(self).src(),
            final(self).reached(r, comments(old(self).src(), old(self).state())),
    {
        let ghost src = self.src();
        let ghost s0 = self.state();
        proof {
            self.lemma_wf();
        }
        while self.matches(Keyword::Obtw)
            invariant
                self.wf(),
                self.src() == src,
                src == old(self).src(),
                s0 == old(self).state(),
                s0.in_bounds(src),
                self.state().in_bounds(src),
                comments(src, s0) == comments(src, self.state()),
            decreases rank(src, self.state()),
        {
            let ghost before = self.state();
            proof {
                lemma_comment(src, before);
            }
            if let Err(e) = self.parse_comment() {
                return Err(e);
            }
        }
        Ok(())
    }

    fn parse_body(&mut self) -> (r: Result<(), CompileError>)
        requires
            old(self).wf(),
        ensures
            final(self).src() == old(self).src(),
            final(self).reached(r, body(old(self).src(), old(self).state())),
    {
        if let Err(e) = self.parse_comments() {
            return Err(e);
        }
        if self.matches(Keyword::MaekHead) {
            if let Err(e) = self.parse_head() {
                return Err(e);
            }
        }
        if let Err(e) = self.parse_comments() {
            return Err(e);
        }
        self.parse_elements()
    }

    /// Parses a whole document: the open marker, the body, the close marker
    /// and the end of input.
    pub fn parse_lolcode(&mut self) -> (r: Result<(), CompileError>)
        requires
            old(self).wf(),
        ensures
            final(self).src() == old(self).src(),
            final(self).reached(r, document(old(self).src(), old(self).state())),
    {
        if let Err(e) = self.next_token() {
            return Err(e);
        }
        if !self.matches(Keyword::Hai) {
            return Err(CompileError::Syntax(SyntaxError::MissingOpen));
        }
        self.emit("<html>\n");
        if let Err(e) = self.next_token() {
            return Err(e);
        }
        if let Err(e) = self.parse_body() {
            return Err(e);
        }
        if !self.matches(Keyword::Kthxbye) {
            return Err(CompileError::Syntax(SyntaxError::MissingClose));
        }
        if let Err(e) = self.next_token() {
            return Err(e);
        }
        if !self.at_end() {
            return Err(CompileError::Syntax(SyntaxError::TrailingInput));
        }
        self.emit("</html>");
        Ok(())
    }
}

} // verus!
