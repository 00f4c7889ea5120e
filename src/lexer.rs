//! The lexical analyzer: pulls one token at a time from the source text.
use vstd::prelude::*;

use crate::chars::{alphabetic, chars_of, fold_case, is_space, letter, lowercase, string_of, whitespace};
use crate::error::{CompileError, Fault};
use crate::keyword::{is_prefix_word, keyword_of, lookup, prefix_word, Keyword};

verus! {

/// The directive sigil.
pub const SIGIL: char = '#';

/// A token: the end of input, a directive of the vocabulary, or a run of
/// text with surrounding whitespace trimmed.
#[derive(Debug)]
pub enum Token {
    End,
    Directive(Keyword),
    Text(String),
}

/// The mathematical form of a `Token`.
pub enum Lexeme {
    End,
    Directive(Keyword),
    Text(Seq<char>),
}

impl View for Token {
    type V = Lexeme;

    open spec fn view(&self) -> Lexeme {
        match self {
            Token::End => Lexeme::End,
            Token::Directive(k) => Lexeme::Directive(*k),
            Token::Text(t) => Lexeme::Text(t@),
        }
    }
}

/// The runs of characters that the lexer reads.
#[derive(Clone, Copy)]
pub enum CharClass {
    Space,
    Letter,
    Blank,
    NotSigil,
}

pub open spec fn in_class(c: char, k: CharClass) -> bool {
    match k {
        CharClass::Space => is_space(c),
        CharClass::Letter => letter(c),
        CharClass::Blank => c == ' ' || c == '\t',
        CharClass::NotSigil => c != SIGIL,
    }
}

/// Input ends when the text is exhausted.
pub open spec fn at_end(src: Seq<char>, p: int) -> bool {
    p >= src.len()
}

/// The end of the run of characters of class `k` that starts at `p`.
pub open spec fn scan(src: Seq<char>, p: int, k: CharClass) -> int
    decreases src.len() - p,
{
    if 0 <= p && !at_end(src, p) && in_class(src[p], k) {
        scan(src, p + 1, k)
    } else {
        p
    }
}

pub open spec fn trim_end(s: Seq<char>) -> Seq<char>
    decreases s.len(),
{
    if s.len() > 0 && is_space(s.last()) {
        trim_end(s.drop_last())
    } else {
        s
    }
}

pub open spec fn trim_start(s: Seq<char>) -> Seq<char>
    decreases s.len(),
{
    if s.len() > 0 && is_space(s[0]) {
        trim_start(s.drop_first())
    } else {
        s
    }
}

/// `s` without leading or trailing whitespace.
pub open spec fn trim(s: Seq<char>) -> Seq<char> {
    trim_start(trim_end(s))
}

/// The directive written at `p`, which holds the sigil: the sigil and a word,
/// joined with one space to a second word where the first opens a two-word
/// directive; and the position after it.
pub open spec fn directive_text(src: Seq<char>, p: int) -> (Seq<char>, int) {
    let w = scan(src, p + 1, CharClass::Letter);
    let first = src.subrange(p, w);
    if is_prefix_word(fold_case(first)) {
        let g = scan(src, w, CharClass::Blank);
        let e = scan(src, g, CharClass::Letter);
        if e > g {
            (first + seq![' '] + src.subrange(g, e), e)
        } else {
            (first, e)
        }
    } else {
        (first, w)
    }
}

/// The directive at `p`, matched against the vocabulary without regard to case.
pub open spec fn lex_directive(src: Seq<char>, p: int) -> Result<(Lexeme, int), Fault> {
    let (word, q) = directive_text(src, p);
    match keyword_of(fold_case(word)) {
        Some(k) => Ok((Lexeme::Directive(k), q)),
        None => Err(Fault::Lexical(word)),
    }
}

/// The token that starts at or after `p`, and the position after it.
pub open spec fn lex(src: Seq<char>, p: int) -> Result<(Lexeme, int), Fault> {
    let b = scan(src, p, CharClass::Space);
    if at_end(src, b) {
        Ok((Lexeme::End, b))
    } else if src[b] == SIGIL {
        lex_directive(src, b)
    } else {
        let e = scan(src, b, CharClass::NotSigil);
        Ok((Lexeme::Text(trim(src.subrange(b, e))), e))
    }
}

pub proof fn lemma_scan(src: Seq<char>, p: int, k: CharClass)
    requires
        0 <= p <= src.len(),
    ensures
        p <= scan(src, p, k) <= src.len(),
        !at_end(src, p) && in_class(src[p], k) ==> scan(src, p, k) > p,
    decreases src.len() - p,
{
    if !at_end(src, p) && in_class(src[p], k) {
        lemma_scan(src, p + 1, k);
    }
}

/// A token other than the end consumes at least one character.
pub proof fn lemma_lex_progress(src: Seq<char>, p: int)
    requires
        0 <= p <= src.len(),
    ensures
        lex(src, p) matches Ok((t, q)) ==> p <= q <= src.len() && (!(t is End) ==> q > p),
{
    let b = scan(src, p, CharClass::Space);
    lemma_scan(src, p, CharClass::Space);
    if !at_end(src, b) {
        if src[b] == SIGIL {
            let w = scan(src, b + 1, CharClass::Letter);
            lemma_scan(src, b + 1, CharClass::Letter);
            let g = scan(src, w, CharClass::Blank);
            lemma_scan(src, w, CharClass::Blank);
            lemma_scan(src, g, CharClass::Letter);
        } else {
            lemma_scan(src, b, CharClass::NotSigil);
        }
    }
}

fn belongs(c: char, k: CharClass) -> (r: bool)
    ensures
        r == in_class(c, k),
{
    match k {
        CharClass::Space => whitespace(c),
        CharClass::Letter => alphabetic(c),
        CharClass::Blank => c == ' ' || c == '\t',
        CharClass::NotSigil => c != SIGIL,
    }
}

fn slice(v: &Vec<char>, a: usize, b: usize) -> (r: Vec<char>)
    requires
        a <= b <= v@.len(),
    ensures
        r@ == v@.subrange(a as int, b as int),
{
    let mut r: Vec<char> = Vec::new();
    let mut i: usize = a;
    while i < b
        invariant
            a <= i <= b <= v@.len(),
            r@ == v@.subrange(a as int, i as int),
        decreases b - i,
    {
        r.push(v[i]);
        i += 1;
        assert(r@ =~= v@.subrange(a as int, i as int));
    }
    r
}

/// The characters of `v` without leading or trailing whitespace.
pub fn trimmed(v: &Vec<char>) -> (r: Vec<char>)
    ensures
        r@ == trim(v@),
{
    let mut e: usize = v.len();
    assert(v@.subrange(0, e as int) =~= v@);
    while e > 0 && whitespace(v[e - 1])
        invariant
            e <= v@.len(),
            trim_end(v@.subrange(0, e as int)) == trim_end(v@),
        decreases e,
    {
        assert(v@.subrange(0, e as int).drop_last() =~= v@.subrange(0, e - 1));
        e -= 1;
    }
    let ghost t = v@.subrange(0, e as int);
    assert(trim_end(t) == t);
    let mut b: usize = 0;
    assert(t.subrange(0, e as int) =~= t);
    while b < e && whitespace(v[b])
        invariant
            b <= e <= v@.len(),
            t == v@.subrange(0, e as int),
            trim_start(v@.subrange(b as int, e as int)) == trim_start(t),
        decreases e - b,
    {
        assert(v@.subrange(b as int, e as int).drop_first() =~= v@.subrange(b + 1, e as int));
        b += 1;
    }
    slice(v, b, e)
}

/// The lexical analyzer over one source text.
pub struct Lexer {
    source: Vec<char>,
    /// Index of the next character to read.
    position: usize,
}

impl Lexer {
    pub closed spec fn src(&self) -> Seq<char> {
        self.source@
    }

    pub closed spec fn pos(&self) -> int {
        self.position as int
    }

    pub closed spec fn wf(&self) -> bool {
        self.position <= self.source@.len()
    }

    pub proof fn lemma_wf(&self)
        requires
            self.wf(),
        ensures
            0 <= self.pos() <= self.src().len(),
    {
    }

    pub fn new(source: &str) -> (r: Lexer)
        ensures
            r.wf(),
            r.src() == source@,
            r.pos() == 0,
    {
        Lexer { source: chars_of(source), position: 0 }
    }

    fn scan(&mut self, k: CharClass)
        requires
            old(self).wf(),
        ensures
            final(self).wf(),
            final(self).source == old(self).source,
            final(self).pos() == scan(old(self).src(), old(self).pos(), k),
    {
        let ghost start = self.pos();
        loop
            invariant
                self.wf(),
                self.source == old(self).source,
                start == old(self).pos(),
                scan(self.src(), self.pos(), k) == scan(self.src(), start, k),
            decreases self.source@.len() - self.position,
        {
            if self.position < self.source.len() && belongs(self.source[self.position], k) {
                self.position += 1;
            } else {
                return;
            }
        }
    }

    fn read_keyword(&mut self) -> (r: Result<Token, CompileError>)
        requires
            old(self).wf(),
            !at_end(old(self).src(), old(self).pos()),
            old(self).src()[old(self).pos()] == SIGIL,
        ensures
            final(self).wf(),
            final(self).source == old(self).source,
            match lex_directive(old(self).src(), old(self).pos()) {
                Ok((t, q)) => r is Ok && r->Ok_0@ == t && final(self).pos() == q,
                Err(e) => r is Err && r->Err_0@ == e,
            },
    {
        let start = self.position;
        let len = self.source.len();
        assert(start < len);
        self.position += 1;
        self.scan(CharClass::Letter);
        let w = self.position;
        proof {
            lemma_scan(self.src(), start + 1, CharClass::Letter);
        }
        let first = slice(&self.source, start, w);
        let ghost first_view = first@;
        let word = if prefix_word(&lowercase(&first)) {
            self.scan(CharClass::Blank);
            let g = self.position;
            self.scan(CharClass::Letter);
            let e = self.position;
            proof {
                lemma_scan(self.src(), w as int, CharClass::Blank);
                lemma_scan(self.src(), g as int, CharClass::Letter);
            }
            if e > g {
                let mut word = first;
                word.push(' ');
                let mut second = slice(&self.source, g, e);
                word.append(&mut second);
                assert(word@ =~= first_view + seq![' '] + self.src().subrange(g as int, e as int));
                word
            } else {
                first
            }
        } else {
            first
        };
        assert(word@ == directive_text(old(self).src(), start as int).0);
        assert(self.pos() == directive_text(old(self).src(), start as int).1);
        match lookup(&lowercase(&word)) {
            Some(k) => Ok(Token::Directive(k)),
            None => Err(CompileError::Lexical(string_of(&word))),
        }
    }

    fn read_text(&mut self) -> (r: Token)
        requires
            old(self).wf(),
        ensures
            final(self).wf(),
            final(self).source == old(self).source,
            final(self).pos() == scan(old(self).src(), old(self).pos(), CharClass::NotSigil),
            r@ == Lexeme::Text(
                trim(old(self).src().subrange(old(self).pos(), final(self).pos())),
            ),
    {
        let start = self.position;
        self.scan(CharClass::NotSigil);
        proof {
            lemma_scan(self.src(), start as int, CharClass::NotSigil);
        }
        let run = slice(&self.source, start, self.position);
        Token::Text(string_of(&trimmed(&run)))
    }

    /// Pulls the next token; a directive outside the vocabulary is a lexical error.
    pub fn next_token(&mut self) -> (r: Result<Token, CompileError>)
        requires
            old(self).wf(),
        ensures
            final(self).wf(),
            final(self).src() == old(self).src(),
            match lex(old(self).src(), old(self).pos()) {
                Ok((t, q)) => r is Ok && r->Ok_0@ == t && final(self).pos() == q,
                Err(e) => r is Err && r->Err_0@ == e,
            },
    {
        self.scan(CharClass::Space);
        if self.position >= self.source.len() {
            return Ok(Token::End);
        }
        if self.source[self.position] == SIGIL {
            self.read_keyword()
        } else {
            Ok(self.read_text())
        }
    }
}

} // verus!
