//! The scope stack and the output buffer.
use vstd::prelude::*;

use crate::error::CompileError;

verus! {

/// The bindings of one scope, given in order of definition: a later
/// definition of a name overwrites an earlier one.
pub open spec fn scope_map(entries: Seq<(String, String)>) -> Map<Seq<char>, Seq<char>>
    decreases entries.len(),
{
    if entries.len() == 0 {
        Map::empty()
    } else {
        let last = entries.last();
        scope_map(entries.drop_last()).insert(last.0@, last.1@)
    }
}

/// Static scoping: the value of `name` in the innermost scope that binds it.
pub open spec fn resolve(scopes: Seq<Map<Seq<char>, Seq<char>>>, name: Seq<char>) -> Option<
    Seq<char>,
>
    decreases scopes.len(),
{
    if scopes.len() == 0 {
        None
    } else if scopes.last().contains_key(name) {
        Some(scopes.last()[name])
    } else {
        resolve(scopes.drop_last(), name)
    }
}

/// The scope stack after entering a scope.
pub open spec fn pushed(scopes: Seq<Map<Seq<char>, Seq<char>>>) -> Seq<Map<Seq<char>, Seq<char>>> {
    scopes.push(Map::empty())
}

/// The scope stack after leaving a scope: the global scope is never left.
pub open spec fn popped(scopes: Seq<Map<Seq<char>, Seq<char>>>) -> Seq<Map<Seq<char>, Seq<char>>> {
    if scopes.len() > 1 {
        scopes.drop_last()
    } else {
        scopes
    }
}

/// The scope stack after binding `name` to `value` in the innermost scope.
pub open spec fn defined(
    scopes: Seq<Map<Seq<char>, Seq<char>>>,
    name: Seq<char>,
    value: Seq<char>,
) -> Seq<Map<Seq<char>, Seq<char>>> {
    scopes.update(scopes.len() - 1, scopes.last().insert(name, value))
}

proof fn lemma_scope_map_found(entries: Seq<(String, String)>, k: int, name: Seq<char>)
    requires
        0 <= k < entries.len(),
        entries[k].0@ == name,
        forall|j: int| k < j < entries.len() ==> entries[j].0@ != name,
    ensures
        scope_map(entries).contains_key(name),
        scope_map(entries)[name] == entries[k].1@,
    decreases entries.len(),
{
    if k < entries.len() - 1 {
        lemma_scope_map_found(entries.drop_last(), k, name);
    }
}

proof fn lemma_scope_map_absent(entries: Seq<(String, String)>, name: Seq<char>)
    requires
        forall|j: int| 0 <= j < entries.len() ==> entries[j].0@ != name,
    ensures
        !scope_map(entries).contains_key(name),
    decreases entries.len(),
{
    if entries.len() > 0 {
        lemma_scope_map_absent(entries.drop_last(), name);
    }
}

/// Variable scopes and the HTML emitted so far.
pub struct SemanticAnalyzer {
    /// Innermost scope last; each scope lists its definitions in order.
    scope_stack: Vec<Vec<(String, String)>>,
    output: String,
}

impl SemanticAnalyzer {
    /// The scope stack, outermost first.
    pub closed spec fn scopes(&self) -> Seq<Map<Seq<char>, Seq<char>>> {
        self.scope_stack@.map_values(|e: Vec<(String, String)>| scope_map(e@))
    }

    /// The output buffer.
    pub closed spec fn out(&self) -> Seq<char> {
        self.output@
    }

    /// The global scope is always there.
    pub closed spec fn wf(&self) -> bool {
        self.scope_stack@.len() >= 1
    }

    pub proof fn lemma_wf(&self)
        requires
            self.wf(),
        ensures
            self.scopes().len() >= 1,
    {
    }

    pub fn new() -> (r: SemanticAnalyzer)
        ensures
            r.wf(),
            r.scopes() == seq![Map::<Seq<char>, Seq<char>>::empty()],
            r.out() == Seq::<char>::empty(),
    {
        let r = SemanticAnalyzer { scope_stack: vec![Vec::new()], output: String::new() };
        assert(r.scopes() =~= seq![Map::<Seq<char>, Seq<char>>::empty()]);
        r
    }

    /// Enters a new innermost scope.
    pub fn push_scope(&mut self)
        requires
            old(self).wf(),
        ensures
            final(self).wf(),
            final(self).scopes() == pushed(old(self).scopes()),
            final(self).out() == old(self).out(),
    {
        self.scope_stack.push(Vec::new());
        assert(self.scopes() =~= pushed(old(self).scopes()));
    }

    /// Leaves the innermost scope, unless only the global scope is left.
    pub fn pop_scope(&mut self)
        requires
            old(self).wf(),
        ensures
            final(self).wf(),
            final(self).scopes() == popped(old(self).scopes()),
            final(self).out() == old(self).out(),
    {
        if self.scope_stack.len() > 1 {
            self.scope_stack.pop();
            assert(self.scopes() =~= popped(old(self).scopes()));
        }
    }

    /// Binds `name` to `value` in the innermost scope.
    pub fn define_variable(&mut self, name: String, value: String)
        requires
            old(self).wf(),
        ensures
            final(self).wf(),
            final(self).scopes() == defined(old(self).scopes(), name@, value@),
            final(self).out() == old(self).out(),
    {
        let ghost n = name@;
        let ghost v = value@;
        let mut top = self.scope_stack.pop().unwrap();
        let ghost before = top@;
        top.push((name, value));
        assert(top@.drop_last() =~= before);
        self.scope_stack.push(top);
        assert(self.scopes() =~= defined(old(self).scopes(), n, v));
    }

    /// The value of `name` in the innermost scope that binds it.
    pub fn lookup_variable(&self, name: &String) -> (r: Result<String, CompileError>)
        requires
            self.wf(),
        ensures
            match resolve(self.scopes(), name@) {
                Some(v) => r is Ok && r->Ok_0@ == v,
                None => r is Err && r->Err_0@ == (crate::error::Fault::UndefinedVariable(name@)),
            },
    {
        let ghost all = self.scopes();
        let mut i: usize = self.scope_stack.len();
        assert(all.subrange(0, i as int) =~= all);
        while i > 0
            invariant
                i <= self.scope_stack@.len(),
                all == self.scopes(),
                resolve(all, name@) == resolve(all.subrange(0, i as int), name@),
            decreases i,
        {
            let scope = &self.scope_stack[i - 1];
            let ghost prefix = all.subrange(0, i as int);
            assert(prefix.drop_last() =~= all.subrange(0, i - 1));
            assert(prefix.last() == scope_map(scope@));
            let mut j: usize = scope.len();
            while j > 0
                invariant
                    j <= scope@.len(),
                    all == self.scopes(),
                    resolve(all, name@) == resolve(prefix, name@),
                    prefix.len() > 0,
                    prefix.last() == scope_map(scope@),
                    forall|k: int| j <= k < scope@.len() ==> scope@[k].0@ != name@,
                decreases j,
            {
                if scope[j - 1].0 == *name {
                    proof {
                        lemma_scope_map_found(scope@, j - 1, name@);
                    }
                    let v = scope[j - 1].1.clone();
                    assert(prefix.last().contains_key(name@));
                    assert(v@ == scope_map(scope@)[name@]);
                    return Ok(v);
                }
                j -= 1;
            }
            proof {
                lemma_scope_map_absent(scope@, name@);
            }
            i -= 1;
        }
        Err(CompileError::UndefinedVariable(name.clone()))
    }

    /// Appends `html` to the output.
    pub fn emit(&mut self, html: &str)
        requires
            old(self).wf(),
        ensures
            final(self).wf(),
            final(self).scopes() == old(self).scopes(),
            final(self).out() == old(self).out() + html@,
    {
        self.output.append(html);
    }

    /// The output built so far.
    pub fn get_output(&self) -> (r: &str)
        ensures
            r@ == self.out(),
    {
        self.output.as_str()
    }

    /// Gives up the analyzer for its output.
    pub fn into_output(self) -> (r: String)
        ensures
            r@ == self.out(),
    {
        self.output
    }

    /// Empties the output and drops every scope but a fresh global one.
    pub fn clear(&mut self)
        ensures
            final(self).wf(),
            final(self).scopes() == seq![Map::<Seq<char>, Seq<char>>::empty()],
            final(self).out() == Seq::<char>::empty(),
    {
        *self = SemanticAnalyzer::new();
    }
}

} // verus!
