use lolcompiler::error::CompileError;
use lolcompiler::semantic::SemanticAnalyzer;

fn s(x: &str) -> String {
    x.to_string()
}

#[test]
fn inner_scope_shadows_and_pop_restores() {
    let mut sa = SemanticAnalyzer::new();
    sa.define_variable(s("n"), s("global"));
    sa.push_scope();
    sa.define_variable(s("n"), s("inner"));
    assert_eq!(sa.lookup_variable(&s("n")).unwrap(), "inner");
    sa.pop_scope();
    assert_eq!(sa.lookup_variable(&s("n")).unwrap(), "global");
}

#[test]
fn outer_names_are_visible_inside() {
    let mut sa = SemanticAnalyzer::new();
    sa.define_variable(s("a"), s("1"));
    sa.push_scope();
    sa.push_scope();
    assert_eq!(sa.lookup_variable(&s("a")).unwrap(), "1");
}

#[test]
fn redefinition_overwrites_in_same_scope() {
    let mut sa = SemanticAnalyzer::new();
    sa.define_variable(s("a"), s("1"));
    sa.define_variable(s("a"), s("2"));
    assert_eq!(sa.lookup_variable(&s("a")).unwrap(), "2");
}

#[test]
fn global_scope_is_never_popped() {
    let mut sa = SemanticAnalyzer::new();
    sa.define_variable(s("a"), s("1"));
    sa.pop_scope();
    sa.pop_scope();
    assert_eq!(sa.lookup_variable(&s("a")).unwrap(), "1");
}

#[test]
fn missing_name_is_an_error() {
    let mut sa = SemanticAnalyzer::new();
    sa.push_scope();
    sa.define_variable(s("a"), s("1"));
    sa.pop_scope();
    match sa.lookup_variable(&s("a")) {
        Err(CompileError::UndefinedVariable(n)) => assert_eq!(n, "a"),
        other => panic!("expected an error: {:?}", other),
    }
}

#[test]
fn emit_appends_in_order_and_clear_resets() {
    let mut sa = SemanticAnalyzer::new();
    sa.emit("<p>");
    sa.emit("x");
    sa.emit("</p>");
    assert_eq!(sa.get_output(), "<p>x</p>");
    sa.define_variable(s("a"), s("1"));
    sa.clear();
    assert_eq!(sa.get_output(), "");
    assert!(sa.lookup_variable(&s("a")).is_err());
    assert_eq!(sa.into_output(), "");
}
