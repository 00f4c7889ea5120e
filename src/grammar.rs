//! The meaning of a document: the grammar's productions as functions from a
//! parser state to the next state or to the first error, with the HTML that
//! each production emits.
use vstd::prelude::*;

use crate::error::{Fault, SyntaxError};
use crate::keyword::Keyword;
use crate::lexer::{lemma_lex_progress, lex, Lexeme};
use crate::semantic::{defined, popped, pushed, resolve};

verus! {

/// Where a parse stands: the current token, the position after it, the scope
/// stack and the output so far.
pub struct PState {
    pub tok: Lexeme,
    pub pos: int,
    pub scopes: Seq<Map<Seq<char>, Seq<char>>>,
    pub out: Seq<char>,
}

impl PState {
    pub open spec fn emit(self, s: Seq<char>) -> PState {
        PState { out: self.out + s, ..self }
    }

    pub open spec fn with_scopes(self, scopes: Seq<Map<Seq<char>, Seq<char>>>) -> PState {
        PState { scopes, ..self }
    }

    pub open spec fn in_bounds(self, src: Seq<char>) -> bool {
        0 <= self.pos <= src.len()
    }
}

pub type Step = Result<PState, Fault>;

/// Input left to read, counting the current token.
pub open spec fn rank(src: Seq<char>, s: PState) -> int {
    2 * (src.len() - s.pos) + if s.tok is End {
        0int
    } else {
        1int
    }
}

/// The state before the first token: nothing read, nothing emitted.
pub open spec fn initial() -> PState {
    PState {
        tok: Lexeme::End,
        pos: 0,
        scopes: seq![Map::<Seq<char>, Seq<char>>::empty()],
        out: Seq::empty(),
    }
}

/// Pulls the next token.
pub open spec fn advance(src: Seq<char>, s: PState) -> Step {
    match lex(src, s.pos) {
        Ok((t, q)) => Ok(PState { tok: t, pos: q, ..s }),
        Err(e) => Err(e),
    }
}

/// Requires the directive `k` and moves past it.
pub open spec fn expect(src: Seq<char>, s: PState, k: Keyword) -> Step {
    if s.tok == Lexeme::Directive(k) {
        advance(src, s)
    } else {
        Err(Fault::Syntax(SyntaxError::Expected(k)))
    }
}

/// `k Text #MKAY`, emitted as `open Text close`.
pub open spec fn tagged(src: Seq<char>, s: PState, k: Keyword, open: Seq<char>, close: Seq<char>) -> Step {
    match expect(src, s, k) {
        Err(e) => Err(e),
        Ok(s1) => match s1.tok {
            Lexeme::Text(t) => match advance(src, s1) {
                Err(e) => Err(e),
                Ok(s2) => match expect(src, s2, Keyword::Mkay) {
                    Err(e) => Err(e),
                    Ok(s3) => Ok(s3.emit(open).emit(t).emit(close)),
                },
            },
            _ => Err(Fault::Syntax(SyntaxError::EmptyContent(k))),
        },
    }
}

/// `#OBTW Text? #TLDR`, emitted as an HTML comment.
pub open spec fn comment(src: Seq<char>, s: PState) -> Step {
    match expect(src, s, Keyword::Obtw) {
        Err(e) => Err(e),
        Ok(s1) => match s1.tok {
            Lexeme::Text(t) => match advance(src, s1) {
                Err(e) => Err(e),
                Ok(s2) => match expect(src, s2, Keyword::Tldr) {
                    Err(e) => Err(e),
                    Ok(s3) => Ok(s3.emit("<!-- "@).emit(t).emit(" -->\n"@)),
                },
            },
            _ => match expect(src, s1, Keyword::Tldr) {
                Err(e) => Err(e),
                Ok(s3) => Ok(s3.emit("<!-- "@).emit(" -->\n"@)),
            },
        },
    }
}

/// `#MAEK HEAD Title #OIC`.
pub open spec fn head(src: Seq<char>, s: PState) -> Step {
    match expect(src, s, Keyword::MaekHead) {
        Err(e) => Err(e),
        Ok(s1) => match tagged(
            src,
            s1.emit("<head>\n"@),
            Keyword::GimmehTitle,
            "<title>"@,
            "</title>\n"@,
        ) {
            Err(e) => Err(e),
            Ok(s2) => match expect(src, s2, Keyword::Oic) {
                Err(e) => Err(e),
                Ok(s3) => Ok(s3.emit("</head>\n"@)),
            },
        },
    }
}

/// `#GIMMEH NEWLINE`.
pub open spec fn newline(src: Seq<char>, s: PState) -> Step {
    match expect(src, s, Keyword::GimmehNewline) {
        Err(e) => Err(e),
        Ok(s1) => Ok(s1.emit("<br>\n"@)),
    }
}

/// Plain text `t`, the current token: emitted followed by one space.
pub open spec fn plain_text(src: Seq<char>, s: PState, t: Seq<char>) -> Step {
    advance(src, s.emit(t).emit(" "@))
}

/// `#I HAZ Name #IT IZ Value #MKAY`: binds the name in the innermost scope.
pub open spec fn var_define(src: Seq<char>, s: PState) -> Step {
    match expect(src, s, Keyword::IHaz) {
        Err(e) => Err(e),
        Ok(s1) => match s1.tok {
            Lexeme::Text(n) => match advance(src, s1) {
                Err(e) => Err(e),
                Ok(s2) => match expect(src, s2, Keyword::ItIz) {
                    Err(e) => Err(e),
                    Ok(s3) => match s3.tok {
                        Lexeme::Text(v) => match advance(src, s3) {
                            Err(e) => Err(e),
                            Ok(s4) => match expect(src, s4, Keyword::Mkay) {
                                Err(e) => Err(e),
                                Ok(s5) => Ok(s5.with_scopes(defined(s5.scopes, n, v))),
                            },
                        },
                        _ => Err(Fault::Syntax(SyntaxError::EmptyContent(Keyword::ItIz))),
                    },
                },
            },
            _ => Err(Fault::Syntax(SyntaxError::EmptyContent(Keyword::IHaz))),
        },
    }
}

/// `#LEMME SEE Name #MKAY`: emits the value that the scopes give the name.
pub open spec fn var_use(src: Seq<char>, s: PState) -> Step {
    match expect(src, s, Keyword::LemmeSee) {
        Err(e) => Err(e),
        Ok(s1) => match s1.tok {
            Lexeme::Text(n) => match advance(src, s1) {
                Err(e) => Err(e),
                Ok(s2) => match expect(src, s2, Keyword::Mkay) {
                    Err(e) => Err(e),
                    Ok(s3) => match resolve(s3.scopes, n) {
                        Some(v) => Ok(s3.emit(v)),
                        None => Err(Fault::UndefinedVariable(n)),
                    },
                },
            },
            _ => Err(Fault::Syntax(SyntaxError::EmptyContent(Keyword::LemmeSee))),
        },
    }
}

/// `Item*`: list items while the current token opens one.
pub open spec fn more_items(src: Seq<char>, s: PState) -> Step
    decreases rank(src, s),
    when s.in_bounds(src)
{
    if s.tok == Lexeme::Directive(Keyword::GimmehItem) {
        match tagged(src, s, Keyword::GimmehItem, "<li>"@, "</li>\n"@) {
            Err(e) => Err(e),
            Ok(s1) => {
                proof {
                    lemma_tagged(src, s, Keyword::GimmehItem, "<li>"@, "</li>\n"@);
                }
                more_items(src, s1)
            },
        }
    } else {
        Ok(s)
    }
}

/// `Item+`: a list holds at least one item.
pub open spec fn items(src: Seq<char>, s: PState) -> Step {
    if s.tok != Lexeme::Directive(Keyword::GimmehItem) {
        Err(Fault::Syntax(SyntaxError::EmptyList))
    } else {
        more_items(src, s)
    }
}

/// `#MAEK LIST Item+ #OIC`, in a scope of its own.
pub open spec fn list(src: Seq<char>, s: PState) -> Step {
    match expect(src, s, Keyword::MaekList) {
        Err(e) => Err(e),
        Ok(s1) => {
            let s2 = s1.emit("<ul>\n"@).with_scopes(pushed(s1.scopes));
            match items(src, s2) {
                Err(e) => Err(e),
                Ok(s3) => match expect(src, s3, Keyword::Oic) {
                    Err(e) => Err(e),
                    Ok(s4) => Ok(s4.with_scopes(popped(s4.scopes)).emit("</ul>\n"@)),
                },
            }
        },
    }
}

/// One element that may stand inside a paragraph, chosen by the current token.
pub open spec fn inner_element(src: Seq<char>, s: PState) -> Step {
    match s.tok {
        Lexeme::Directive(Keyword::GimmehBold) => tagged(src, s, Keyword::GimmehBold, "<b>"@, "</b>"@),
        Lexeme::Directive(Keyword::GimmehItalics) => tagged(
            src,
            s,
            Keyword::GimmehItalics,
            "<i>"@,
            "</i>"@,
        ),
        Lexeme::Directive(Keyword::GimmehSoundz) => tagged(
            src,
            s,
            Keyword::GimmehSoundz,
            "<audio controls><source src=\""@,
            "\"></audio>\n"@,
        ),
        Lexeme::Directive(Keyword::GimmehVidz) => tagged(
            src,
            s,
            Keyword::GimmehVidz,
            "<iframe src=\""@,
            "\"></iframe>\n"@,
        ),
        Lexeme::Directive(Keyword::GimmehNewline) => newline(src, s),
        Lexeme::Directive(Keyword::MaekList) => list(src, s),
        Lexeme::Directive(Keyword::IHaz) => var_define(src, s),
        Lexeme::Directive(Keyword::LemmeSee) => var_use(src, s),
        Lexeme::Text(t) => plain_text(src, s, t),
        Lexeme::Directive(k) => Err(Fault::Syntax(SyntaxError::UnexpectedToken(k))),
        Lexeme::End => Err(Fault::Syntax(SyntaxError::MissingClose)),
    }
}

/// `InnerElement*`: up to the closing `#OIC` or the end of input.
pub open spec fn inner(src: Seq<char>, s: PState) -> Step
    decreases rank(src, s),
    when s.in_bounds(src)
{
    if s.tok is End || s.tok == Lexeme::Directive(Keyword::Oic) {
        Ok(s)
    } else {
        match inner_element(src, s) {
            Err(e) => Err(e),
            Ok(s1) => {
                proof {
                    lemma_inner_element(src, s);
                }
                inner(src, s1)
            },
        }
    }
}

/// `#MAEK PARAGRAF InnerElement* #OIC`, in a scope of its own.
pub open spec fn paragraph(src: Seq<char>, s: PState) -> Step {
    match expect(src, s, Keyword::MaekParagraf) {
        Err(e) => Err(e),
        Ok(s1) => match inner(src, s1.emit("<p>"@).with_scopes(pushed(s1.scopes))) {
            Err(e) => Err(e),
            Ok(s2) => if s2.tok != Lexeme::Directive(Keyword::Oic) {
                Err(Fault::Syntax(SyntaxError::Expected(Keyword::Oic)))
            } else {
                match advance(src, s2) {
                    Err(e) => Err(e),
                    Ok(s3) => Ok(s3.with_scopes(popped(s3.scopes)).emit("</p>\n"@)),
                }
            },
        },
    }
}

/// One element of the body, chosen by the current token.
pub open spec fn element(src: Seq<char>, s: PState) -> Step {
    if s.tok == Lexeme::Directive(Keyword::MaekParagraf) {
        paragraph(src, s)
    } else {
        inner_element(src, s)
    }
}

/// `Element*`: up to the close marker or the end of input.
pub open spec fn elements(src: Seq<char>, s: PState) -> Step
    decreases rank(src, s),
    when s.in_bounds(src)
{
    if s.tok is End || s.tok == Lexeme::Directive(Keyword::Kthxbye) {
        Ok(s)
    } else {
        match element(src, s) {
            Err(e) => Err(e),
            Ok(s1) => {
                proof {
                    lemma_element(src, s);
                }
                elements(src, s1)
            },
        }
    }
}

/// `Comment*`.
pub open spec fn comments(src: Seq<char>, s: PState) -> Step
    decreases rank(src, s),
    when s.in_bounds(src)
{
    if s.tok == Lexeme::Directive(Keyword::Obtw) {
        match comment(src, s) {
            Err(e) => Err(e),
            Ok(s1) => {
                proof {
                    lemma_comment(src, s);
                }
                comments(src, s1)
            },
        }
    } else {
        Ok(s)
    }
}

/// `Comment* Head? Comment* Element*`.
pub open spec fn body(src: Seq<char>, s: PState) -> Step {
    match comments(src, s) {
        Err(e) => Err(e),
        Ok(s1) => match if s1.tok == Lexeme::Directive(Keyword::MaekHead) {
            head(src, s1)
        } else {
            Ok(s1)
        } {
            Err(e) => Err(e),
            Ok(s2) => match comments(src, s2) {
                Err(e) => Err(e),
                Ok(s3) => elements(src, s3),
            },
        },
    }
}

/// `#HAI Body #KTHXBYE` and nothing after it, from the state before the first token.
pub open spec fn document(src: Seq<char>, s: PState) -> Step {
    match advance(src, s) {
        Err(e) => Err(e),
        Ok(s1) => if s1.tok != Lexeme::Directive(Keyword::Hai) {
            Err(Fault::Syntax(SyntaxError::MissingOpen))
        } else {
            match advance(src, s1.emit("<html>\n"@)) {
                Err(e) => Err(e),
                Ok(s2) => match body(src, s2) {
                    Err(e) => Err(e),
                    Ok(s3) => if s3.tok != Lexeme::Directive(Keyword::Kthxbye) {
                        Err(Fault::Syntax(SyntaxError::MissingClose))
                    } else {
                        match advance(src, s3) {
                            Err(e) => Err(e),
                            Ok(s4) => if !(s4.tok is End) {
                                Err(Fault::Syntax(SyntaxError::TrailingInput))
                            } else {
                                Ok(s4.emit("</html>"@))
                            },
                        }
                    },
                },
            }
        },
    }
}

/// The HTML document that `src` translates to, or the first error in it.
pub open spec fn translation(src: Seq<char>) -> Result<Seq<char>, Fault> {
    match document(src, initial()) {
        Ok(s) => Ok(s.out),
        Err(e) => Err(e),
    }
}

/// Pulling a token never adds to the rank, and consumes the current one.
pub proof fn lemma_advance(src: Seq<char>)
    ensures
        forall|s: PState|
            s.in_bounds(src) && #[trigger] advance(src, s) is Ok ==> {
                let s1 = advance(src, s)->Ok_0;
                &&& s1.in_bounds(src)
                &&& rank(src, s1) <= rank(src, s)
                &&& !(s.tok is End) ==> rank(src, s1) < rank(src, s)
            },
{
    assert forall|s: PState| s.in_bounds(src) && #[trigger] advance(src, s) is Ok implies {
        let s1 = advance(src, s)->Ok_0;
        &&& s1.in_bounds(src)
        &&& rank(src, s1) <= rank(src, s)
        &&& !(s.tok is End) ==> rank(src, s1) < rank(src, s)
    } by {
        lemma_lex_progress(src, s.pos);
    }
}

pub proof fn lemma_tagged(src: Seq<char>, s: PState, k: Keyword, open: Seq<char>, close: Seq<char>)
    requires
        s.in_bounds(src),
    ensures
        tagged(src, s, k, open, close) matches Ok(s1) ==> s1.in_bounds(src) && rank(src, s1) < rank(src, s),
{
    lemma_advance(src);
}

pub proof fn lemma_comment(src: Seq<char>, s: PState)
    requires
        s.in_bounds(src),
    ensures
        comment(src, s) matches Ok(s1) ==> s1.in_bounds(src) && rank(src, s1) < rank(src, s),
{
    lemma_advance(src);
}

pub proof fn lemma_items(src: Seq<char>, s: PState)
    requires
        s.in_bounds(src),
    ensures
        more_items(src, s) matches Ok(s1) ==> s1.in_bounds(src) && rank(src, s1) <= rank(src, s),
    decreases rank(src, s),
{
    if s.tok == Lexeme::Directive(Keyword::GimmehItem) {
        lemma_tagged(src, s, Keyword::GimmehItem, "<li>"@, "</li>\n"@);
        if let Ok(s1) = tagged(src, s, Keyword::GimmehItem, "<li>"@, "</li>\n"@) {
            lemma_items(src, s1);
        }
    }
}

pub proof fn lemma_list(src: Seq<char>, s: PState)
    requires
        s.in_bounds(src),
    ensures
        list(src, s) matches Ok(s1) ==> s1.in_bounds(src) && rank(src, s1) < rank(src, s),
{
    lemma_advance(src);
    if let Ok(s1) = expect(src, s, Keyword::MaekList) {
        lemma_items(src, s1.emit("<ul>\n"@).with_scopes(pushed(s1.scopes)));
    }
}

pub proof fn lemma_inner_element(src: Seq<char>, s: PState)
    requires
        s.in_bounds(src),
    ensures
        inner_element(src, s) matches Ok(s1) ==> s1.in_bounds(src) && rank(src, s1) < rank(src, s),
{
    lemma_advance(src);
    match s.tok {
        Lexeme::Directive(k) => {
            lemma_tagged(src, s, k, "<b>"@, "</b>"@);
            lemma_tagged(src, s, k, "<i>"@, "</i>"@);
            lemma_tagged(src, s, k, "<audio controls><source src=\""@, "\"></audio>\n"@);
            lemma_tagged(src, s, k, "<iframe src=\""@, "\"></iframe>\n"@);
            lemma_list(src, s);
        },
        _ => {},
    }
}

pub proof fn lemma_inner(src: Seq<char>, s: PState)
    requires
        s.in_bounds(src),
    ensures
        inner(src, s) matches Ok(s1) ==> s1.in_bounds(src) && rank(src, s1) <= rank(src, s),
    decreases rank(src, s),
{
    if !(s.tok is End || s.tok == Lexeme::Directive(Keyword::Oic)) {
        lemma_inner_element(src, s);
        if let Ok(s1) = inner_element(src, s) {
            lemma_inner(src, s1);
        }
    }
}

pub proof fn lemma_paragraph(src: Seq<char>, s: PState)
    requires
        s.in_bounds(src),
    ensures
        paragraph(src, s) matches Ok(s1) ==> s1.in_bounds(src) && rank(src, s1) < rank(src, s),
{
    lemma_advance(src);
    if let Ok(s1) = expect(src, s, Keyword::MaekParagraf) {
        lemma_inner(src, s1.emit("<p>"@).with_scopes(pushed(s1.scopes)));
    }
}

pub proof fn lemma_element(src: Seq<char>, s: PState)
    requires
        s.in_bounds(src),
    ensures
        element(src, s) matches Ok(s1) ==> s1.in_bounds(src) && rank(src, s1) < rank(src, s),
{
    lemma_paragraph(src, s);
    lemma_inner_element(src, s);
}

} // verus!
