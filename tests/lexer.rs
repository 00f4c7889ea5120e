use lolcompiler::error::CompileError;
use lolcompiler::keyword::Keyword;
use lolcompiler::lexer::{Lexer, Token};

fn directive(t: Result<Token, CompileError>) -> Keyword {
    match t {
        Ok(Token::Directive(k)) => k,
        other => panic!("not a directive: {:?}", other),
    }
}

fn text(t: Result<Token, CompileError>) -> String {
    match t {
        Ok(Token::Text(s)) => s,
        other => panic!("not text: {:?}", other),
    }
}

#[test]
fn tokens_in_order() {
    let mut lx = Lexer::new("#HAI  hello there \n #gimmeh bold x #mkay");
    assert_eq!(directive(lx.next_token()), Keyword::Hai);
    assert_eq!(text(lx.next_token()), "hello there");
    assert_eq!(directive(lx.next_token()), Keyword::GimmehBold);
    assert_eq!(text(lx.next_token()), "x");
    assert_eq!(directive(lx.next_token()), Keyword::Mkay);
    assert!(matches!(lx.next_token(), Ok(Token::End)));
    assert!(matches!(lx.next_token(), Ok(Token::End)));
}

#[test]
fn two_word_directive_across_blanks() {
    let mut lx = Lexer::new("#MAEK \t  PARAGRAF");
    assert_eq!(directive(lx.next_token()), Keyword::MaekParagraf);
    let mut lx = Lexer::new("#lemme see");
    assert_eq!(directive(lx.next_token()), Keyword::LemmeSee);
}

#[test]
fn text_is_trimmed_and_keeps_case() {
    let mut lx = Lexer::new("\t  Mixed Case Words \n\t");
    assert_eq!(text(lx.next_token()), "Mixed Case Words");
    assert!(matches!(lx.next_token(), Ok(Token::End)));
}

#[test]
fn unknown_word_is_rejected() {
    let mut lx = Lexer::new("#HAIX");
    match lx.next_token() {
        Err(CompileError::Lexical(w)) => assert_eq!(w, "#HAIX"),
        other => panic!("expected a lexical error: {:?}", other),
    }
}

#[test]
fn every_directive_is_recognized() {
    let cases = [
        ("#hai", Keyword::Hai),
        ("#kthxbye", Keyword::Kthxbye),
        ("#obtw", Keyword::Obtw),
        ("#tldr", Keyword::Tldr),
        ("#maek head", Keyword::MaekHead),
        ("#maek paragraf", Keyword::MaekParagraf),
        ("#maek list", Keyword::MaekList),
        ("#gimmeh italics", Keyword::GimmehItalics),
        ("#gimmeh title", Keyword::GimmehTitle),
        ("#gimmeh item", Keyword::GimmehItem),
        ("#gimmeh newline", Keyword::GimmehNewline),
        ("#gimmeh soundz", Keyword::GimmehSoundz),
        ("#gimmeh vidz", Keyword::GimmehVidz),
        ("#gimmeh bold", Keyword::GimmehBold),
        ("#mkay", Keyword::Mkay),
        ("#oic", Keyword::Oic),
        ("#i haz", Keyword::IHaz),
        ("#it iz", Keyword::ItIz),
        ("#lemme see", Keyword::LemmeSee),
    ];
    for (src, k) in cases {
        assert_eq!(directive(Lexer::new(src).next_token()), k);
        assert_eq!(directive(Lexer::new(&src.to_uppercase()).next_token()), k);
    }
}

#[test]
fn empty_input_ends_at_once() {
    assert!(matches!(Lexer::new("").next_token(), Ok(Token::End)));
    assert!(matches!(Lexer::new("  \n\t ").next_token(), Ok(Token::End)));
}
