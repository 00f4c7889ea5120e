use lolcompiler::compiler::{compile, LolCompiler};
use lolcompiler::error::{CompileError, SyntaxError};
use lolcompiler::keyword::Keyword;

fn html(source: &str) -> String {
    match compile(source) {
        Ok(h) => h,
        Err(e) => panic!("unexpected error {:?}", e),
    }
}

fn error(source: &str) -> CompileError {
    match compile(source) {
        Ok(h) => panic!("unexpected success {:?}", h),
        Err(e) => e,
    }
}

#[test]
fn minimal_document() {
    assert_eq!(html("#HAI #KTHXBYE"), "<html>\n</html>");
}

#[test]
fn head_with_title() {
    let out = html("#HAI #MAEK HEAD #GIMMEH TITLE My Page #MKAY #OIC #GIMMEH BOLD hi #MKAY #KTHXBYE");
    assert_eq!(out, "<html>\n<head>\n<title>My Page</title>\n</head>\n<b>hi</b></html>");
    let head = out.find("<head>\n<title>My Page</title>\n</head>\n").unwrap();
    assert!(head < out.find("<b>").unwrap());
}

#[test]
fn paragraph_shadows_then_restores() {
    let src = "#HAI #I HAZ myname #IT IZ Josh #MKAY \
               #MAEK PARAGRAF #I HAZ myname #IT IZ Jon #MKAY #LEMME SEE myname #MKAY #OIC \
               #LEMME SEE myname #MKAY #KTHXBYE";
    assert_eq!(html(src), "<html>\n<p>Jon</p>\nJosh</html>");
}

#[test]
fn list_scope_is_left_at_its_end() {
    let src = "#HAI #I HAZ x #IT IZ outer #MKAY #MAEK PARAGRAF #MAEK LIST #GIMMEH ITEM a #MKAY #OIC \
               #LEMME SEE x #MKAY #OIC #KTHXBYE";
    assert_eq!(html(src), "<html>\n<p><ul>\n<li>a</li>\n</ul>\nouter</p>\n</html>");
}

#[test]
fn undefined_variable_is_a_semantic_error() {
    match error("#HAI #LEMME SEE nobody #MKAY #KTHXBYE") {
        CompileError::UndefinedVariable(n) => assert_eq!(n, "nobody"),
        e => panic!("wrong error {:?}", e),
    }
}

#[test]
fn variable_of_a_closed_paragraph_is_undefined() {
    let src = "#HAI #MAEK PARAGRAF #I HAZ x #IT IZ 1 #MKAY #OIC #LEMME SEE x #MKAY #KTHXBYE";
    assert!(matches!(error(src), CompileError::UndefinedVariable(_)));
}

#[test]
fn empty_list_is_rejected() {
    let e = error("#HAI #MAEK LIST #OIC #KTHXBYE");
    assert!(matches!(e, CompileError::Syntax(SyntaxError::EmptyList)));
}

#[test]
fn list_items_each_give_one_li() {
    let out = html("#HAI #MAEK LIST #GIMMEH ITEM one #MKAY #GIMMEH ITEM two #MKAY #OIC #KTHXBYE");
    assert_eq!(out, "<html>\n<ul>\n<li>one</li>\n<li>two</li>\n</ul>\n</html>");
    let single = html("#HAI #MAEK LIST #GIMMEH ITEM only #MKAY #OIC #KTHXBYE");
    assert_eq!(single, "<html>\n<ul>\n<li>only</li>\n</ul>\n</html>");
}

#[test]
fn directives_ignore_case() {
    assert_eq!(html("#hai #kthxbye"), "<html>\n</html>");
    assert_eq!(html("#HaI\n#KthxBYE"), "<html>\n</html>");
    assert_eq!(html("#hai #gImMeH bOlD x #mKaY #kthxbye"), "<html>\n<b>x</b></html>");
}

#[test]
fn text_keeps_its_case() {
    assert_eq!(html("#HAI Hello WORLD #KTHXBYE"), "<html>\nHello WORLD </html>");
}

#[test]
fn compiling_twice_gives_the_same_output() {
    let src = "#HAI #OBTW note #TLDR #MAEK PARAGRAF Some text #GIMMEH NEWLINE #OIC #KTHXBYE";
    assert_eq!(compile(src).unwrap(), compile(src).unwrap());
}

#[test]
fn each_element_emits_its_html() {
    let src = "#HAI #OBTW a comment #TLDR #MAEK PARAGRAF #GIMMEH ITALICS it #MKAY #GIMMEH NEWLINE \
               #GIMMEH SOUNDZ a.mp3 #MKAY #GIMMEH VIDZ v.mp4 #MKAY #OIC #KTHXBYE";
    assert_eq!(
        html(src),
        "<html>\n<!-- a comment -->\n<p><i>it</i><br>\n<audio controls><source src=\"a.mp3\"></audio>\n\
         <iframe src=\"v.mp4\"></iframe>\n</p>\n</html>"
    );
}

#[test]
fn comment_without_text() {
    assert_eq!(html("#HAI #OBTW #TLDR #KTHXBYE"), "<html>\n<!--  -->\n</html>");
}

#[test]
fn missing_open_marker() {
    assert!(matches!(error("hello #KTHXBYE"), CompileError::Syntax(SyntaxError::MissingOpen)));
    assert!(matches!(error(""), CompileError::Syntax(SyntaxError::MissingOpen)));
}

#[test]
fn missing_close_marker() {
    assert!(matches!(error("#HAI text"), CompileError::Syntax(SyntaxError::MissingClose)));
}

#[test]
fn unknown_directive_is_a_lexical_error() {
    match error("#HAI #FOO #KTHXBYE") {
        CompileError::Lexical(w) => assert_eq!(w, "#FOO"),
        e => panic!("wrong error {:?}", e),
    }
}

#[test]
fn lone_first_word_of_two_word_directive_is_a_lexical_error() {
    match error("#HAI #MAEK #KTHXBYE") {
        CompileError::Lexical(w) => assert_eq!(w, "#MAEK"),
        e => panic!("wrong error {:?}", e),
    }
}

#[test]
fn unexpected_directive_in_body() {
    let e = error("#HAI #MKAY #KTHXBYE");
    assert!(matches!(e, CompileError::Syntax(SyntaxError::UnexpectedToken(Keyword::Mkay))));
}

#[test]
fn paragraph_inside_paragraph_is_unexpected() {
    let e = error("#HAI #MAEK PARAGRAF #MAEK PARAGRAF #OIC #OIC #KTHXBYE");
    assert!(matches!(e, CompileError::Syntax(SyntaxError::UnexpectedToken(Keyword::MaekParagraf))));
}

#[test]
fn empty_bold_is_rejected() {
    let e = error("#HAI #GIMMEH BOLD #MKAY #KTHXBYE");
    assert!(matches!(e, CompileError::Syntax(SyntaxError::EmptyContent(Keyword::GimmehBold))));
}

#[test]
fn empty_variable_name_and_value_are_told_apart() {
    let e = error("#HAI #I HAZ #IT IZ v #MKAY #KTHXBYE");
    assert!(matches!(e, CompileError::Syntax(SyntaxError::EmptyContent(Keyword::IHaz))));
    let e = error("#HAI #I HAZ n #IT IZ #MKAY #KTHXBYE");
    assert!(matches!(e, CompileError::Syntax(SyntaxError::EmptyContent(Keyword::ItIz))));
    let e = error("#HAI #LEMME SEE #MKAY #KTHXBYE");
    assert!(matches!(e, CompileError::Syntax(SyntaxError::EmptyContent(Keyword::LemmeSee))));
}

#[test]
fn keyword_spellings() {
    assert_eq!(Keyword::Hai.spelling(), "#HAI");
    assert_eq!(Keyword::LemmeSee.spelling(), "#LEMME SEE");
}

#[test]
fn missing_mkay_is_reported() {
    let e = error("#HAI #GIMMEH BOLD x #KTHXBYE");
    assert!(matches!(e, CompileError::Syntax(SyntaxError::Expected(Keyword::Mkay))));
}

#[test]
fn unclosed_paragraph_expects_oic() {
    let e = error("#HAI #MAEK PARAGRAF text");
    assert!(matches!(e, CompileError::Syntax(SyntaxError::Expected(Keyword::Oic))));
}

#[test]
fn text_after_close_marker_is_rejected() {
    let e = error("#HAI #KTHXBYE extra");
    assert!(matches!(e, CompileError::Syntax(SyntaxError::TrailingInput)));
    let e = error("#HAI #KTHXBYE #OIC");
    assert!(matches!(e, CompileError::Syntax(SyntaxError::TrailingInput)));
}

#[test]
fn unknown_directive_after_close_marker_is_read() {
    match error("#HAI #KTHXBYE #NOTAKEYWORD") {
        CompileError::Lexical(w) => assert_eq!(w, "#NOTAKEYWORD"),
        e => panic!("wrong error {:?}", e),
    }
}

#[test]
fn whitespace_after_close_marker_is_fine() {
    assert_eq!(html("#HAI #KTHXBYE \n\t "), "<html>\n</html>");
}

#[test]
fn nul_character_is_ordinary_text() {
    assert_eq!(html("#HAI \0 #KTHXBYE"), "<html>\n\0 </html>");
}

#[test]
fn compiler_keeps_last_output() {
    let mut c = LolCompiler::new();
    assert_eq!(c.get_output(), "");
    assert!(c.compile("#HAI #GIMMEH BOLD b #MKAY #KTHXBYE").is_ok());
    assert_eq!(c.get_output(), "<html>\n<b>b</b></html>");
    assert!(c.compile("#HAI #KTHXBYE").is_ok());
    assert_eq!(c.get_output(), "<html>\n</html>");
    assert!(c.compile("#HAI").is_err());
    assert_eq!(c.get_output(), "");
}

#[test]
fn unicode_whitespace_is_trimmed() {
    assert_eq!(html("#HAI \u{3000}x\u{a0}y\u{2028} #KTHXBYE"), "<html>\nx\u{a0}y </html>");
}

#[test]
fn non_ascii_letters_extend_a_directive_word() {
    match error("#HAI #KTHXBYEé") {
        CompileError::Lexical(w) => assert_eq!(w, "#KTHXBYEé"),
        e => panic!("wrong error {:?}", e),
    }
}
