//! Properties of the translation, proved over its specification.
use vstd::prelude::*;

use crate::chars::{all_ascii, ascii_lower, ascii_lower_char};
use crate::error::{Fault, SyntaxError};
use crate::grammar::{
    advance, expect, head, inner, inner_element, items, list, more_items, paragraph, plain_text,
    tagged, translation, var_use, PState,
};
use crate::keyword::Keyword;
use crate::lexer::{in_class, lemma_scan, lex_directive, scan, CharClass, Lexeme};
use crate::semantic::{defined, popped, pushed, resolve};

verus! {

/// Translation is a function of the source text: the same text always gives
/// the same document, or the same error.
pub proof fn law_translation_is_deterministic(a: Seq<char>, b: Seq<char>)
    requires
        a == b,
    ensures
        translation(a) == translation(b),
{
}

/// A name bound in an inner scope hides its outer binding; leaving the inner
/// scope brings the outer binding back, and forgets all the inner scope held.
pub proof fn law_shadow_and_restore(
    scopes: Seq<Map<Seq<char>, Seq<char>>>,
    name: Seq<char>,
    outer: Seq<char>,
    inner_value: Seq<char>,
)
    requires
        scopes.len() >= 1,
    ensures
        ({
            let global = defined(scopes, name, outer);
            let nested = defined(pushed(global), name, inner_value);
            &&& resolve(global, name) == Some(outer)
            &&& resolve(nested, name) == Some(inner_value)
            &&& popped(nested) == global
            &&& resolve(popped(nested), name) == Some(outer)
        }),
{
    let global = defined(scopes, name, outer);
    let nested = defined(pushed(global), name, inner_value);
    assert(nested.drop_last() =~= global);
}

/// A name is unbound exactly when no active scope binds it.
pub proof fn law_unbound_iff_in_no_scope(scopes: Seq<Map<Seq<char>, Seq<char>>>, name: Seq<char>)
    ensures
        resolve(scopes, name) is None <==> forall|i: int|
            0 <= i < scopes.len() ==> !(#[trigger] scopes[i]).contains_key(name),
    decreases scopes.len(),
{
    if scopes.len() > 0 {
        law_unbound_iff_in_no_scope(scopes.drop_last(), name);
        assert forall|i: int| 0 <= i < scopes.len() - 1 implies scopes.drop_last()[i] == scopes[i] by {}
    }
}

/// Outside the innermost scope, nothing changed.
pub open spec fn same_outer(a: Seq<Map<Seq<char>, Seq<char>>>, b: Seq<Map<Seq<char>, Seq<char>>>) -> bool {
    a.len() == b.len() && a.drop_last() == b.drop_last()
}

proof fn lemma_items_scopes(src: Seq<char>, s: PState)
    requires
        s.in_bounds(src),
    ensures
        more_items(src, s) matches Ok(s1) ==> s1.scopes == s.scopes,
    decreases crate::grammar::rank(src, s),
{
    crate::grammar::lemma_advance(src);
    if s.tok == Lexeme::Directive(Keyword::GimmehItem) {
        crate::grammar::lemma_tagged(src, s, Keyword::GimmehItem, "<li>"@, "</li>\n"@);
        if let Ok(s1) = tagged(src, s, Keyword::GimmehItem, "<li>"@, "</li>\n"@) {
            lemma_items_scopes(src, s1);
        }
    }
}

/// A list leaves the scopes as it found them.
pub proof fn law_list_keeps_scopes(src: Seq<char>, s: PState)
    requires
        s.in_bounds(src),
        s.scopes.len() >= 1,
    ensures
        list(src, s) matches Ok(s1) ==> s1.scopes == s.scopes,
{
    crate::grammar::lemma_advance(src);
    if let Ok(s1) = expect(src, s, Keyword::MaekList) {
        let s2 = s1.emit("<ul>\n"@).with_scopes(pushed(s1.scopes));
        lemma_items_scopes(src, s2);
        if let Ok(s3) = items(src, s2) {
            if let Ok(s4) = expect(src, s3, Keyword::Oic) {
                assert(pushed(s.scopes).drop_last() =~= s.scopes);
            }
        }
    }
}

proof fn lemma_inner_element_scopes(src: Seq<char>, s: PState)
    requires
        s.in_bounds(src),
        s.scopes.len() >= 1,
    ensures
        inner_element(src, s) matches Ok(s1) ==> same_outer(s1.scopes, s.scopes),
{
    crate::grammar::lemma_advance(src);
    law_list_keeps_scopes(src, s);
    if s.tok == Lexeme::Directive(Keyword::IHaz) {
        if let Ok(s1) = inner_element(src, s) {
            let sc = s1.scopes;
            assert(sc.drop_last() =~= s.scopes.drop_last());
        }
    }
}

proof fn lemma_inner_scopes(src: Seq<char>, s: PState)
    requires
        s.in_bounds(src),
        s.scopes.len() >= 1,
    ensures
        inner(src, s) matches Ok(s1) ==> same_outer(s1.scopes, s.scopes),
    decreases crate::grammar::rank(src, s),
{
    if !(s.tok is End || s.tok == Lexeme::Directive(Keyword::Oic)) {
        crate::grammar::lemma_inner_element(src, s);
        lemma_inner_element_scopes(src, s);
        if let Ok(s1) = inner_element(src, s) {
            lemma_inner_scopes(src, s1);
        }
    }
}

/// A paragraph leaves the scopes as it found them: what it defines is gone
/// once it closes, and every outer binding is back.
pub proof fn law_paragraph_keeps_scopes(src: Seq<char>, s: PState)
    requires
        s.in_bounds(src),
        s.scopes.len() >= 1,
    ensures
        paragraph(src, s) matches Ok(s1) ==> s1.scopes == s.scopes,
{
    crate::grammar::lemma_advance(src);
    if let Ok(s1) = expect(src, s, Keyword::MaekParagraf) {
        let s2 = s1.emit("<p>"@).with_scopes(pushed(s1.scopes));
        assert(pushed(s.scopes).drop_last() =~= s.scopes);
        lemma_inner_scopes(src, s2);
    }
}

/// A list whose opener is not followed by an item is a syntax error.
pub proof fn law_empty_list_rejected(src: Seq<char>, s: PState)
    requires
        s.tok == Lexeme::Directive(Keyword::MaekList),
        advance(src, s) matches Ok(s1) && s1.tok != Lexeme::Directive(Keyword::GimmehItem),
    ensures
        list(src, s) == Err::<PState, Fault>(Fault::Syntax(SyntaxError::EmptyList)),
{
}

/// The HTML of the list items with texts `ts`, in order.
pub open spec fn li_all(ts: Seq<Seq<char>>) -> Seq<char>
    decreases ts.len(),
{
    if ts.len() == 0 {
        Seq::empty()
    } else {
        "<li>"@ + ts[0] + "</li>\n"@ + li_all(ts.drop_first())
    }
}

proof fn lemma_items_out(src: Seq<char>, s: PState)
    requires
        s.in_bounds(src),
    ensures
        more_items(src, s) matches Ok(s1) ==> exists|ts: Seq<Seq<char>>|
            {
                &&& s1.out == s.out + li_all(ts)
                &&& (s.tok == Lexeme::Directive(Keyword::GimmehItem) ==> ts.len() >= 1)
            },
    decreases crate::grammar::rank(src, s),
{
    crate::grammar::lemma_advance(src);
    if s.tok == Lexeme::Directive(Keyword::GimmehItem) {
        crate::grammar::lemma_tagged(src, s, Keyword::GimmehItem, "<li>"@, "</li>\n"@);
        if let Ok(s1) = tagged(src, s, Keyword::GimmehItem, "<li>"@, "</li>\n"@) {
            lemma_items_out(src, s1);
            if let Ok(s2) = more_items(src, s1) {
                let a = expect(src, s, Keyword::GimmehItem)->Ok_0;
                let t = a.tok->Text_0;
                let rest = choose|ts: Seq<Seq<char>>| s2.out == s1.out + li_all(ts);
                let ts = seq![t] + rest;
                assert(ts.drop_first() =~= rest);
                assert(s1.out == s.out + "<li>"@ + t + "</li>\n"@);
                assert(s2.out =~= s.out + li_all(ts));
            }
        }
    } else {
        assert(s.out + li_all(Seq::empty()) =~= s.out);
    }
}

/// A list that translates gives one `<li>` element per item, in order,
/// at least one, inside `<ul>` and `</ul>`.
pub proof fn law_list_output(src: Seq<char>, s: PState)
    requires
        s.in_bounds(src),
    ensures
        list(src, s) matches Ok(s1) ==> exists|ts: Seq<Seq<char>>|
            {
                &&& ts.len() >= 1
                &&& s1.out == s.out + "<ul>\n"@ + li_all(ts) + "</ul>\n"@
            },
{
    crate::grammar::lemma_advance(src);
    if let Ok(s1) = expect(src, s, Keyword::MaekList) {
        let s2 = s1.emit("<ul>\n"@).with_scopes(pushed(s1.scopes));
        lemma_items_out(src, s2);
        if let Ok(s5) = list(src, s) {
            let s3 = items(src, s2)->Ok_0;
            let ts = choose|ts: Seq<Seq<char>>|
                s3.out == s2.out + li_all(ts) && (s2.tok == Lexeme::Directive(Keyword::GimmehItem)
                    ==> ts.len() >= 1);
            assert(s5.out =~= s.out + "<ul>\n"@ + li_all(ts) + "</ul>\n"@);
        }
    }
}

proof fn lemma_same_class(x: char, y: char)
    requires
        (x as u32) < 128,
        (y as u32) < 128,
        ascii_lower_char(x) == ascii_lower_char(y),
    ensures
        in_class(x, CharClass::Letter) == in_class(y, CharClass::Letter),
        in_class(x, CharClass::Blank) == in_class(y, CharClass::Blank),
{
}

proof fn lemma_scan_case(a: Seq<char>, b: Seq<char>, p: int, k: CharClass)
    requires
        a.len() == b.len(),
        all_ascii(a),
        all_ascii(b),
        ascii_lower(a) == ascii_lower(b),
        0 <= p <= a.len(),
        k == CharClass::Letter || k == CharClass::Blank,
    ensures
        scan(a, p, k) == scan(b, p, k),
    decreases a.len() - p,
{
    if p < a.len() {
        assert(ascii_lower(a)[p] == ascii_lower(b)[p]);
        assert(ascii_lower(a)[p] == ascii_lower_char(a[p]));
        assert(ascii_lower(b)[p] == ascii_lower_char(b[p]));
        lemma_same_class(a[p], b[p]);
        lemma_scan_case(a, b, p + 1, k);
    }
}

proof fn lemma_fold_part(a: Seq<char>, b: Seq<char>, i: int, j: int)
    requires
        a.len() == b.len(),
        all_ascii(a),
        all_ascii(b),
        ascii_lower(a) == ascii_lower(b),
        0 <= i <= j <= a.len(),
    ensures
        all_ascii(a.subrange(i, j)),
        all_ascii(b.subrange(i, j)),
        ascii_lower(a.subrange(i, j)) == ascii_lower(b.subrange(i, j)),
{
    assert forall|m: int| 0 <= m < j - i implies ascii_lower(a.subrange(i, j))[m] == ascii_lower(
        b.subrange(i, j),
    )[m] by {
        assert(ascii_lower(a)[i + m] == ascii_lower(b)[i + m]);
        assert(ascii_lower(a)[i + m] == ascii_lower_char(a[i + m]));
        assert(ascii_lower(b)[i + m] == ascii_lower_char(b[i + m]));
        assert(ascii_lower(a.subrange(i, j))[m] == ascii_lower_char(a.subrange(i, j)[m]));
        assert(ascii_lower(b.subrange(i, j))[m] == ascii_lower_char(b.subrange(i, j)[m]));
    }
    assert(ascii_lower(a.subrange(i, j)) =~= ascii_lower(b.subrange(i, j)));
}

/// Directives are matched without regard to case: in two ASCII texts that
/// differ only in the case of letters, the directive at the same place lexes
/// to the same keyword and ends at the same place, or is rejected in both.
pub proof fn law_directive_case_insensitive(a: Seq<char>, b: Seq<char>, p: int)
    requires
        a.len() == b.len(),
        all_ascii(a),
        all_ascii(b),
        ascii_lower(a) == ascii_lower(b),
        0 <= p < a.len(),
        a[p] == '#',
    ensures
        lex_directive(a, p) is Ok <==> lex_directive(b, p) is Ok,
        lex_directive(a, p) is Ok ==> lex_directive(a, p)->Ok_0 == lex_directive(b, p)->Ok_0,
{
    lemma_scan(a, p + 1, CharClass::Letter);
    lemma_scan_case(a, b, p + 1, CharClass::Letter);
    let w = scan(a, p + 1, CharClass::Letter);
    lemma_fold_part(a, b, p, w);
    lemma_scan(a, w, CharClass::Blank);
    lemma_scan_case(a, b, w, CharClass::Blank);
    let g = scan(a, w, CharClass::Blank);
    lemma_scan(a, g, CharClass::Letter);
    lemma_scan_case(a, b, g, CharClass::Letter);
    let e = scan(a, g, CharClass::Letter);
    lemma_fold_part(a, b, g, e);
    let fa = a.subrange(p, w);
    let fb = b.subrange(p, w);
    let sa = a.subrange(g, e);
    let sb = b.subrange(g, e);
    let ja = fa + seq![' '] + sa;
    let jb = fb + seq![' '] + sb;
    assert(all_ascii(ja));
    assert(all_ascii(jb));
    assert(ascii_lower(ja) =~= ascii_lower(fa) + seq![' '] + ascii_lower(sa));
    assert(ascii_lower(jb) =~= ascii_lower(fb) + seq![' '] + ascii_lower(sb));
}

/// A head gives its title, and nothing else, between `<head>` and `</head>`,
/// and leaves the scopes as they were.
pub proof fn law_head_output(src: Seq<char>, s: PState)
    ensures
        head(src, s) matches Ok(s1) ==> s1.scopes == s.scopes && exists|t: Seq<char>|
            s1.out == s.out + "<head>\n"@ + "<title>"@ + t + "</title>\n"@ + "</head>\n"@,
{
    if let Ok(s1) = head(src, s) {
        let a = expect(src, s, Keyword::MaekHead)->Ok_0.emit("<head>\n"@);
        let b = expect(src, a, Keyword::GimmehTitle)->Ok_0;
        let t = b.tok->Text_0;
        assert(s1.out =~= s.out + "<head>\n"@ + "<title>"@ + t + "</title>\n"@ + "</head>\n"@);
    }
}

/// The scopes after each of `defs`, in order, is defined in the innermost scope.
pub open spec fn define_all(
    scopes: Seq<Map<Seq<char>, Seq<char>>>,
    defs: Seq<(Seq<char>, Seq<char>)>,
) -> Seq<Map<Seq<char>, Seq<char>>>
    decreases defs.len(),
{
    if defs.len() == 0 {
        scopes
    } else {
        let d = defs.last();
        defined(define_all(scopes, defs.drop_last()), d.0, d.1)
    }
}

proof fn lemma_define_all(scopes: Seq<Map<Seq<char>, Seq<char>>>, defs: Seq<(Seq<char>, Seq<char>)>)
    requires
        scopes.len() >= 1,
    ensures
        same_outer(define_all(scopes, defs), scopes),
    decreases defs.len(),
{
    if defs.len() > 0 {
        lemma_define_all(scopes, defs.drop_last());
        let d = defs.last();
        let before = define_all(scopes, defs.drop_last());
        assert(defined(before, d.0, d.1).drop_last() =~= before.drop_last());
    }
}

/// Whatever is defined in a scope is forgotten when it is left: after a push,
/// any number of definitions and a pop, the scopes are those before the push,
/// so every name resolves as it did.
pub proof fn law_pop_forgets_scope(
    scopes: Seq<Map<Seq<char>, Seq<char>>>,
    defs: Seq<(Seq<char>, Seq<char>)>,
    name: Seq<char>,
)
    requires
        scopes.len() >= 1,
    ensures
        popped(define_all(pushed(scopes), defs)) == scopes,
        resolve(popped(define_all(pushed(scopes), defs)), name) == resolve(scopes, name),
{
    lemma_define_all(pushed(scopes), defs);
    assert(pushed(scopes).drop_last() =~= scopes);
}

/// Using a name that no active scope binds ends the translation with a
/// semantic error naming it.
pub proof fn law_unbound_use_fails(src: Seq<char>, s: PState, n: Seq<char>)
    requires
        ({
            let s1 = expect(src, s, Keyword::LemmeSee)->Ok_0;
            let s2 = advance(src, s1)->Ok_0;
            &&& expect(src, s, Keyword::LemmeSee) is Ok
            &&& s1.tok == Lexeme::Text(n)
            &&& advance(src, s1) is Ok
            &&& expect(src, s2, Keyword::Mkay) is Ok
        }),
        resolve(s.scopes, n) is None,
    ensures
        var_use(src, s) == Err::<PState, Fault>(Fault::UndefinedVariable(n)),
{
}

/// Plain text is emitted exactly as written, followed by one space.
pub proof fn law_text_verbatim(src: Seq<char>, s: PState, t: Seq<char>)
    ensures
        plain_text(src, s, t) matches Ok(s1) ==> s1.out == s.out + t + " "@,
{
}

} // verus!
