use vstd::prelude::*;
use vstd::string::StringExecFns;
use crate::error::{ErrModel, TeciError};
use crate::object::{ObjModel, Object};
use crate::token::Token;

verus! {

/// Model of one lexical scope: the bindings in declaration order, with
/// distinct names (a redeclaration overwrites in place).
pub type ScopeModel = Seq<(Seq<char>, ObjModel)>;

/// Model of the whole chain: outermost (global) scope first, innermost
/// last.
pub type EnvModel = Seq<ScopeModel>;

/// The value bound to `name` in one scope.
pub open spec fn scope_find(sc: ScopeModel, name: Seq<char>) -> Option<ObjModel>
    decreases sc.len(),
{
    if sc.len() == 0 {
        None
    } else if sc[0].0 == name {
        Some(sc[0].1)
    } else {
        scope_find(sc.drop_first(), name)
    }
}

/// Overwrite the existing binding of `name` in one scope.
pub open spec fn scope_set(sc: ScopeModel, name: Seq<char>, value: ObjModel) -> ScopeModel
    decreases sc.len(),
{
    if sc.len() == 0 {
        sc
    } else if sc[0].0 == name {
        seq![(name, value)] + sc.drop_first()
    } else {
        seq![sc[0]] + scope_set(sc.drop_first(), name, value)
    }
}

/// Bind `name` in one scope: overwrite in place when it is already
/// declared there, append a new binding otherwise.
pub open spec fn scope_define(sc: ScopeModel, name: Seq<char>, value: ObjModel) -> ScopeModel {
    if scope_find(sc, name) is Some {
        scope_set(sc, name, value)
    } else {
        sc.push((name, value))
    }
}

/// The value bound to `name`, searching the innermost scope outward.
pub open spec fn env_find(env: EnvModel, name: Seq<char>) -> Option<ObjModel>
    decreases env.len(),
{
    if env.len() == 0 {
        None
    } else {
        match scope_find(env.last(), name) {
            Some(v) => Some(v),
            None => env_find(env.drop_last(), name),
        }
    }
}

/// Overwrite the binding of `name` in the nearest enclosing scope that
/// already declares it; none when no scope does (assignment never
/// implicitly declares).
pub open spec fn env_assign(env: EnvModel, name: Seq<char>, value: ObjModel) -> Option<EnvModel>
    decreases env.len(),
{
    if env.len() == 0 {
        None
    } else if scope_find(env.last(), name) is Some {
        Some(env.drop_last().push(scope_set(env.last(), name, value)))
    } else {
        match env_assign(env.drop_last(), name, value) {
            Some(e2) => Some(e2.push(env.last())),
            None => None,
        }
    }
}

/// Bind `name` in the innermost scope.
pub open spec fn env_define(env: EnvModel, name: Seq<char>, value: ObjModel) -> EnvModel {
    env.drop_last().push(scope_define(env.last(), name, value))
}

/// A value model fits the executable representation.
pub open spec fn model_wf(v: ObjModel) -> bool {
    match v {
        ObjModel::Num { n, d } => i64::MIN <= n <= i64::MAX && 1 <= d <= i64::MAX,
        _ => true,
    }
}

/// Every value stored anywhere in the chain fits the representation.
pub open spec fn env_wf(env: EnvModel) -> bool {
    forall|i: int, j: int|
        0 <= i < env.len() && 0 <= j < env[i].len() ==> model_wf((#[trigger] env[i][j]).1)
}

/// The diagnostic for reading an undefined variable.
pub open spec fn undefined_read(name: crate::token::TokenModel) -> ErrModel {
    ErrModel {
        token: Some(name),
        line: name.line,
        message: "Undefined variable "@ + name.lexeme,
    }
}

/// The diagnostic for assigning to an undefined variable.
pub open spec fn undefined_assign(name: crate::token::TokenModel) -> ErrModel {
    ErrModel {
        token: Some(name),
        line: name.line,
        message: "Undefined variable '"@ + name.lexeme + "'"@,
    }
}

/// A chain of lexical scopes mapping names to values.  Scopes are created
/// and torn down in strict nested order, so the chain is held as a stack:
/// the global scope at the bottom, the innermost scope on top.
#[derive(Debug)]
pub struct Envirnoment {
    scopes: Vec<Vec<(String, Object)>>,
}

impl View for Envirnoment {
    type V = EnvModel;

    closed spec fn view(&self) -> EnvModel {
        self.scopes@.map_values(
            |sc: Vec<(String, Object)>| sc@.map_values(|p: (String, Object)| (p.0@, p.1@)),
        )
    }
}

/// The first binding of `name` in one scope, by index.
fn scope_index(scope: &Vec<(String, Object)>, name: &String) -> (r: Option<usize>)
    ensures
        ({
            let m = scope@.map_values(|p: (String, Object)| (p.0@, p.1@));
            match r {
                Some(ix) => ix < scope@.len() && scope@[ix as int].0@ == name@ && scope_find(
                    m,
                    name@,
                ) == Some(scope@[ix as int].1@) && (forall|k: int|
                    0 <= k < ix ==> (#[trigger] scope@[k]).0@ != name@),
                None => scope_find(m, name@) is None,
            }
        }),
{
    let ghost m = scope@.map_values(|p: (String, Object)| (p.0@, p.1@));
    let mut j: usize = 0;
    proof {
        assert(m.skip(0) =~= m);
    }
    while j < scope.len()
        invariant
            j <= scope@.len(),
            m == scope@.map_values(|p: (String, Object)| (p.0@, p.1@)),
            scope_find(m, name@) == scope_find(m.skip(j as int), name@),
            forall|k: int| 0 <= k < j ==> (#[trigger] scope@[k]).0@ != name@,
        decreases scope@.len() - j,
    {
        let hit = {
            let entry = &scope[j];
            entry.0 == *name
        };
        proof {
            assert(m.skip(j as int).len() > 0);
            assert(m.skip(j as int)[0] == m[j as int]);
            assert(m.skip(j as int).drop_first() =~= m.skip(j + 1));
        }
        if hit {
            return Some(j);
        }
        j = j + 1;
    }
    proof {
        assert(m.skip(scope@.len() as int).len() == 0);
    }
    None
}

impl Envirnoment {
    /// A fresh chain holding only the empty global scope.
    pub fn new() -> (r: Envirnoment)
        ensures
            r@ == seq![Seq::<(Seq<char>, ObjModel)>::empty()],
            r@.len() == 1,
    {
        let mut scopes: Vec<Vec<(String, Object)>> = Vec::new();
        scopes.push(Vec::new());
        let r = Envirnoment { scopes };
        proof {
            assert(r@ =~~= seq![Seq::<(Seq<char>, ObjModel)>::empty()]);
        }
        r
    }

    /// Enter a block: a new, empty innermost scope whose enclosing chain is
    /// this one.
    pub fn with_enclosing(self) -> (r: Envirnoment)
        ensures
            r@ == self@.push(Seq::<(Seq<char>, ObjModel)>::empty()),
    {
        let mut e = self;
        e.scopes.push(Vec::new());
        proof {
            assert(e@ =~~= self@.push(Seq::<(Seq<char>, ObjModel)>::empty()));
        }
        e
    }

    /// Leave a block: drop the innermost scope, returning to the enclosing
    /// chain.
    pub fn into_enclosing(self) -> (r: Envirnoment)
        requires
            self@.len() >= 2,
        ensures
            r@ == self@.drop_last(),
    {
        let mut e = self;
        e.scopes.pop();
        proof {
            assert(e@ =~~= self@.drop_last());
        }
        e
    }

    /// The number of open scopes.
    pub fn depth(&self) -> (n: usize)
        ensures
            n == self@.len(),
    {
        self.scopes.len()
    }

    /// Bind `name` in the innermost scope, overwriting any same-scope
    /// declaration.
    pub fn define(&mut self, name: String, value: Object)
        requires
            old(self)@.len() >= 1,
        ensures
            final(self)@ == env_define(old(self)@, name@, value@),
    {
        let last = self.scopes.len() - 1;
        let ghost m0 = old(self)@;
        let ghost scm = m0[last as int];
        proof {
            assert(scm == self.scopes@[last as int]@.map_values(
                |p: (String, Object)| (p.0@, p.1@),
            ));
            assert(m0.last() == scm);
        }
        let ix = scope_index(&self.scopes[last], &name);
        match ix {
            Some(i) => {
                proof {
                    assert(scm[i as int].0 == name@);
                    assert(forall|k: int| 0 <= k < i ==> (#[trigger] scm[k]).0 != name@);
                    lemma_scope_set_at(scm, i as int, name@, value@);
                }
                self.scopes[last][i] = (name, value);
                proof {
                    assert(self.scopes@[last as int]@.map_values(
                        |p: (String, Object)| (p.0@, p.1@),
                    ) =~= scm.update(i as int, (name@, value@)));
                    assert(self@ =~= m0.update(last as int, scope_set(scm, name@, value@)));
                    assert(m0.update(last as int, scope_set(scm, name@, value@)) =~= env_define(
                        m0,
                        name@,
                        value@,
                    ));
                }
            },
            None => {
                let sc = &mut self.scopes[last];
                sc.push((name, value));
                proof {
                    assert(self.scopes@[last as int]@.map_values(
                        |p: (String, Object)| (p.0@, p.1@),
                    ) =~= scm.push((name@, value@)));
                    assert(self@ =~= m0.update(last as int, scm.push((name@, value@))));
                    assert(m0.update(last as int, scm.push((name@, value@))) =~= env_define(
                        m0,
                        name@,
                        value@,
                    ));
                }
            },
        }
    }

    /// Look `name` up through the chain, innermost scope outward.
    pub fn get(&self, name: &Token) -> (r: Result<Object, TeciError>)
        ensures
            match env_find(self@, name.lexeme@) {
                Some(v) => r is Ok && r->Ok_0@ == v && (env_wf(self@) ==> r->Ok_0.wf()),
                None => r is Err && r->Err_0@ == undefined_read(name@),
            },
    {
        let mut i = self.scopes.len();
        proof {
            assert(self@.take(self.scopes@.len() as int) =~= self@);
        }
        while i > 0
            invariant
                i <= self.scopes@.len(),
                env_find(self@, name.lexeme@) == env_find(self@.take(i as int), name.lexeme@),
            decreases i,
        {
            let ghost mv = self@;
            let ix = scope_index(&self.scopes[i - 1], &name.lexeme);
            proof {
                assert(mv.take(i as int).last() == mv[i - 1]);
                assert(mv.take(i as int).drop_last() =~= mv.take(i - 1));
                assert(mv[i - 1] == self.scopes@[i - 1]@.map_values(
                    |p: (String, Object)| (p.0@, p.1@),
                ));
            }
            match ix {
                Some(j) => {
                    let found = {
                        let entry = &self.scopes[i - 1][j];
                        entry.1.clone()
                    };
                    proof {
                        if env_wf(mv) {
                            assert(mv[i - 1][j as int].1 == found@);
                        }
                    }
                    return Ok(found);
                },
                None => {
                    i = i - 1;
                },
            }
        }
        proof {
            assert(self@.take(0).len() == 0);
        }
        let mut message = String::new();
        message.append("Undefined variable ");
        message.append(name.lexeme.as_str());
        Err(TeciError { token: Some(name.clone()), line: name.line, message })
    }

    /// Overwrite the binding of `name` in the nearest enclosing scope that
    /// declares it; an undefined name is a runtime error and leaves the
    /// chain unchanged.
    pub fn assign(&mut self, name: &Token, value: Object) -> (r: Result<(), TeciError>)
        ensures
            match env_assign(old(self)@, name.lexeme@, value@) {
                Some(e2) => r is Ok && final(self)@ == e2,
                None => r is Err && r->Err_0@ == undefined_assign(name@) && final(self)@ == old(
                    self,
                )@,
            },
    {
        let ghost m0 = old(self)@;
        let mut i = self.scopes.len();
        while i > 0
            invariant
                old(self)@ == m0,
                i <= self.scopes@.len(),
                self@ == m0,
                self.scopes@.len() == m0.len(),
                forall|k: int| i <= k < m0.len() ==> scope_find(#[trigger] m0[k], name.lexeme@)
                    is None,
            decreases i,
        {
            proof {
                assert(m0[i - 1] == self.scopes@[i - 1]@.map_values(
                    |p: (String, Object)| (p.0@, p.1@),
                ));
            }
            let ix = scope_index(&self.scopes[i - 1], &name.lexeme);
            match ix {
                Some(j) => {
                    let ghost oldsc = self.scopes@[i - 1]@;
                    let key = {
                        let entry = &self.scopes[i - 1][j];
                        entry.0.clone()
                    };
                    self.scopes[i - 1][j] = (key, value);
                    proof {
                        let scm = m0[i - 1];
                        assert(scm[j as int].0 == name.lexeme@);
                        assert(forall|k: int| 0 <= k < j ==> (#[trigger] scm[k]).0
                            != name.lexeme@);
                        lemma_scope_set_at(scm, j as int, name.lexeme@, value@);
                        assert(self.scopes@[i - 1]@.map_values(
                            |p: (String, Object)| (p.0@, p.1@),
                        ) =~= scm.update(j as int, (name.lexeme@, value@)));
                        assert(self@ =~= m0.update(i - 1, scope_set(scm, name.lexeme@, value@)));
                        lemma_env_assign_at(m0, name.lexeme@, value@, i - 1);
                        assert(env_assign(m0, name.lexeme@, value@) == Some(self@));
                    }
                    return Ok(());
                },
                None => {
                    i = i - 1;
                },
            }
        }
        proof {
            lemma_env_assign_none(m0, name.lexeme@, value@);
        }
        let mut message = String::new();
        message.append("Undefined variable '");
        message.append(name.lexeme.as_str());
        message.append("'");
        Err(TeciError { token: Some(name.clone()), line: name.line, message })
    }
}

/// Overwriting the first binding of `name` at its index `t` is `scope_set`.
proof fn lemma_scope_set_at(sc: ScopeModel, t: int, name: Seq<char>, value: ObjModel)
    requires
        0 <= t < sc.len(),
        sc[t].0 == name,
        forall|k: int| 0 <= k < t ==> (#[trigger] sc[k]).0 != name,
    ensures
        scope_set(sc, name, value) == sc.update(t, (name, value)),
    decreases sc.len(),
{
    if t == 0 {
        assert(scope_set(sc, name, value) == seq![(name, value)] + sc.drop_first());
        assert(seq![(name, value)] + sc.drop_first() =~= sc.update(0, (name, value)));
    } else {
        assert(sc[0].0 != name);
        assert(sc.drop_first()[t - 1].0 == name);
        assert(forall|k: int| 0 <= k < t - 1 ==> (#[trigger] sc.drop_first()[k]).0 != name);
        lemma_scope_set_at(sc.drop_first(), t - 1, name, value);
        assert(seq![sc[0]] + sc.drop_first().update(t - 1, (name, value)) =~= sc.update(
            t,
            (name, value),
        ));
    }
}

/// When `name` is declared in scope `t` and in no scope above it,
/// assignment updates exactly scope `t`.
proof fn lemma_env_assign_at(env: EnvModel, name: Seq<char>, value: ObjModel, t: int)
    requires
        0 <= t < env.len(),
        scope_find(env[t], name) is Some,
        forall|k: int| t < k < env.len() ==> scope_find(#[trigger] env[k], name) is None,
    ensures
        env_assign(env, name, value) == Some(env.update(t, scope_set(env[t], name, value))),
    decreases env.len(),
{
    if t == env.len() - 1 {
        assert(env.last() == env[t]);
        assert(env.drop_last().push(scope_set(env[t], name, value)) =~= env.update(
            t,
            scope_set(env[t], name, value),
        ));
    } else {
        assert(scope_find(env.last(), name) is None);
        assert(forall|k: int| t < k < env.drop_last().len() ==> scope_find(
            #[trigger] env.drop_last()[k],
            name,
        ) is None);
        assert(env.drop_last()[t] == env[t]);
        lemma_env_assign_at(env.drop_last(), name, value, t);
        assert(env.drop_last().update(t, scope_set(env[t], name, value)).push(env.last())
            =~= env.update(t, scope_set(env[t], name, value)));
    }
}

/// When no scope declares `name`, assignment fails.
proof fn lemma_env_assign_none(env: EnvModel, name: Seq<char>, value: ObjModel)
    requires
        forall|k: int| 0 <= k < env.len() ==> scope_find(#[trigger] env[k], name) is None,
    ensures
        env_assign(env, name, value) is None,
    decreases env.len(),
{
    if env.len() > 0 {
        assert(scope_find(env.last(), name) is None);
        lemma_env_assign_none(env.drop_last(), name, value);
    }
}

/// Law: a binding made in a nested scope is invisible once the scope ends.
/// Entering a block, declaring any name there, and leaving the block gives
/// back exactly the enclosing chain, so a later read of that name yields
/// the enclosing scope's prior value, or the undefined-variable failure
/// when there was none.
pub proof fn lemma_block_scope_isolation(env: EnvModel, name: Seq<char>, value: ObjModel)
    requires
        env.len() >= 1,
    ensures
        env_define(env.push(Seq::<(Seq<char>, ObjModel)>::empty()), name, value).drop_last()
            == env,
        env_find(
            env_define(env.push(Seq::<(Seq<char>, ObjModel)>::empty()), name, value).drop_last(),
            name,
        ) == env_find(env, name),
{
    let pushed = env.push(Seq::<(Seq<char>, ObjModel)>::empty());
    assert(pushed.last() =~= Seq::<(Seq<char>, ObjModel)>::empty());
    assert(pushed.drop_last() =~= env);
    assert(env_define(pushed, name, value).drop_last() =~= env);
}

} // verus!

verus! {

/// Every value in one scope fits the representation.
pub open spec fn scope_wf(sc: ScopeModel) -> bool {
    forall|j: int| 0 <= j < sc.len() ==> model_wf((#[trigger] sc[j]).1)
}

/// The chain is well-formed exactly when each scope is.
pub proof fn lemma_env_wf_scopes(env: EnvModel)
    ensures
        env_wf(env) <==> (forall|i: int| 0 <= i < env.len() ==> scope_wf(#[trigger] env[i])),
{
    if env_wf(env) {
        assert forall|i: int| 0 <= i < env.len() implies scope_wf(#[trigger] env[i]) by {
            assert forall|j: int| 0 <= j < env[i].len() implies model_wf(
                (#[trigger] env[i][j]).1,
            ) by {
                assert(env_wf(env));
            }
        }
    }
    if (forall|i: int| 0 <= i < env.len() ==> scope_wf(#[trigger] env[i])) {
        assert forall|i: int, j: int|
            0 <= i < env.len() && 0 <= j < env[i].len() implies model_wf(
            (#[trigger] env[i][j]).1,
        ) by {
            assert(scope_wf(env[i]));
        }
    }
}

/// Overwriting a binding with a representable value keeps the scope
/// well-formed.
proof fn lemma_scope_set_wf(sc: ScopeModel, name: Seq<char>, value: ObjModel)
    requires
        scope_wf(sc),
        model_wf(value),
    ensures
        scope_wf(scope_set(sc, name, value)),
    decreases sc.len(),
{
    if sc.len() == 0 {
    } else if sc[0].0 == name {
        let r = seq![(name, value)] + sc.drop_first();
        assert forall|j: int| 0 <= j < r.len() implies model_wf((#[trigger] r[j]).1) by {
            if j > 0 {
                assert(r[j] == sc[j]);
            }
        }
    } else {
        assert(scope_wf(sc.drop_first()));
        lemma_scope_set_wf(sc.drop_first(), name, value);
        let r = seq![sc[0]] + scope_set(sc.drop_first(), name, value);
        assert forall|j: int| 0 <= j < r.len() implies model_wf((#[trigger] r[j]).1) by {
            if j == 0 {
                assert(r[0] == sc[0]);
            } else {
                assert(r[j] == scope_set(sc.drop_first(), name, value)[j - 1]);
            }
        }
    }
}

/// Defining a binding with a representable value keeps the scope
/// well-formed.
proof fn lemma_scope_define_wf(sc: ScopeModel, name: Seq<char>, value: ObjModel)
    requires
        scope_wf(sc),
        model_wf(value),
    ensures
        scope_wf(scope_define(sc, name, value)),
{
    if scope_find(sc, name) is Some {
        lemma_scope_set_wf(sc, name, value);
    } else {
        let r = sc.push((name, value));
        assert forall|j: int| 0 <= j < r.len() implies model_wf((#[trigger] r[j]).1) by {
            if j < sc.len() {
                assert(r[j] == sc[j]);
            }
        }
    }
}

/// Defining a binding with a representable value keeps the chain
/// well-formed.
pub proof fn lemma_env_define_wf(env: EnvModel, name: Seq<char>, value: ObjModel)
    requires
        env.len() >= 1,
        env_wf(env),
        model_wf(value),
    ensures
        env_wf(env_define(env, name, value)),
{
    lemma_env_wf_scopes(env);
    assert(scope_wf(env.last()));
    lemma_scope_define_wf(env.last(), name, value);
    let r = env_define(env, name, value);
    assert forall|i: int| 0 <= i < r.len() implies scope_wf(#[trigger] r[i]) by {
        if i < env.len() - 1 {
            assert(r[i] == env[i]);
        }
    }
    lemma_env_wf_scopes(r);
}

/// Assigning a representable value keeps the chain well-formed.
pub proof fn lemma_env_assign_wf(env: EnvModel, name: Seq<char>, value: ObjModel)
    requires
        env_wf(env),
        model_wf(value),
    ensures
        match env_assign(env, name, value) {
            Some(e2) => env_wf(e2) && e2.len() == env.len(),
            None => true,
        },
    decreases env.len(),
{
    if env.len() == 0 {
    } else if scope_find(env.last(), name) is Some {
        lemma_env_wf_scopes(env);
        assert(scope_wf(env.last()));
        lemma_scope_set_wf(env.last(), name, value);
        let r = env.drop_last().push(scope_set(env.last(), name, value));
        assert forall|i: int| 0 <= i < r.len() implies scope_wf(#[trigger] r[i]) by {
            if i < env.len() - 1 {
                assert(r[i] == env[i]);
                assert(scope_wf(env[i]));
            }
        }
        lemma_env_wf_scopes(r);
    } else {
        lemma_env_wf_scopes(env);
        assert forall|i: int| 0 <= i < env.drop_last().len() implies scope_wf(
            #[trigger] env.drop_last()[i],
        ) by {
            assert(env.drop_last()[i] == env[i]);
        }
        lemma_env_wf_scopes(env.drop_last());
        lemma_env_assign_wf(env.drop_last(), name, value);
        match env_assign(env.drop_last(), name, value) {
            Some(e2) => {
                lemma_env_wf_scopes(e2);
                let r = e2.push(env.last());
                assert forall|i: int| 0 <= i < r.len() implies scope_wf(#[trigger] r[i]) by {
                    if i < e2.len() {
                        assert(r[i] == e2[i]);
                    } else {
                        assert(r[i] == env.last());
                        assert(scope_wf(env[env.len() - 1]));
                    }
                }
                lemma_env_wf_scopes(r);
            },
            None => {},
        }
    }
}

} // verus!
