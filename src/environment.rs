use vstd::prelude::*;
use crate::ast::{LiteralValue, ValueView};

verus! {

/// One scope: its bindings, names unique.
pub type ScopeView = Seq<(Seq<char>, ValueView)>;

/// The scope chain, outermost (global) first, innermost last.
pub type EnvView = Seq<ScopeView>;

/// Position of `name` in a scope, or -1.
pub open spec fn find_in(sc: ScopeView, name: Seq<char>) -> int
    decreases sc.len(),
{
    if sc.len() == 0 {
        -1
    } else if sc.last().0 == name {
        sc.len() - 1
    } else {
        find_in(sc.drop_last(), name)
    }
}

/// The value bound to `name` in the innermost scope that binds it.
pub open spec fn env_get(env: EnvView, name: Seq<char>) -> Option<ValueView>
    decreases env.len(),
{
    if env.len() == 0 {
        None
    } else if find_in(env.last(), name) >= 0 {
        Some(env.last()[find_in(env.last(), name)].1)
    } else {
        env_get(env.drop_last(), name)
    }
}

/// The chain with `name` rebound to `v` in the innermost scope that binds it; None when no scope
/// binds it.
pub open spec fn env_assign(env: EnvView, name: Seq<char>, v: ValueView) -> Option<EnvView>
    decreases env.len(),
{
    if env.len() == 0 {
        None
    } else if find_in(env.last(), name) >= 0 {
        Some(
            env.update(
                env.len() - 1,
                env.last().update(find_in(env.last(), name), (name, v)),
            ),
        )
    } else {
        match env_assign(env.drop_last(), name, v) {
            Some(e) => Some(e.push(env.last())),
            None => None,
        }
    }
}

/// The chain with `name` bound to `v` in the innermost scope, replacing any binding there.
pub open spec fn env_define(env: EnvView, name: Seq<char>, v: ValueView) -> EnvView {
    if env.len() == 0 {
        seq![seq![(name, v)]]
    } else if find_in(env.last(), name) >= 0 {
        env.update(env.len() - 1, env.last().update(find_in(env.last(), name), (name, v)))
    } else {
        env.update(env.len() - 1, env.last().push((name, v)))
    }
}

proof fn lemma_find_in(sc: ScopeView, name: Seq<char>)
    ensures
        -1 <= find_in(sc, name) < sc.len(),
        find_in(sc, name) >= 0 ==> sc[find_in(sc, name)].0 == name,
    decreases sc.len(),
{
    if sc.len() > 0 && sc.last().0 != name {
        lemma_find_in(sc.drop_last(), name);
    }
}

proof fn lemma_get_skip(env: EnvView, name: Seq<char>, k: int)
    requires
        0 <= k <= env.len(),
        forall|j: int| k <= j < env.len() ==> find_in(#[trigger] env[j], name) < 0,
    ensures
        env_get(env, name) == env_get(env.subrange(0, k), name),
    decreases env.len() - k,
{
    if k < env.len() {
        assert(find_in(env[env.len() - 1], name) < 0);
        let d = env.drop_last();
        assert(forall|j: int| k <= j < d.len() ==> d[j] == env[j]);
        lemma_get_skip(d, name, k);
        assert(d.subrange(0, k) =~= env.subrange(0, k));
    } else {
        assert(env.subrange(0, k) =~= env);
    }
}

proof fn lemma_assign_skip(env: EnvView, name: Seq<char>, v: ValueView, k: int)
    requires
        0 <= k <= env.len(),
        forall|j: int| k <= j < env.len() ==> find_in(#[trigger] env[j], name) < 0,
    ensures
        env_assign(env, name, v) == match env_assign(env.subrange(0, k), name, v) {
            Some(e) => Some(e + env.subrange(k, env.len() as int)),
            None => None,
        },
    decreases env.len() - k,
{
    if k < env.len() {
        assert(find_in(env[env.len() - 1], name) < 0);
        let d = env.drop_last();
        assert(forall|j: int| k <= j < d.len() ==> d[j] == env[j]);
        lemma_assign_skip(d, name, v, k);
        assert(d.subrange(0, k) =~= env.subrange(0, k));
        match env_assign(env.subrange(0, k), name, v) {
            Some(e) => {
                assert((e + d.subrange(k, d.len() as int)).push(env.last()) =~= e + env.subrange(
                    k,
                    env.len() as int,
                ));
            },
            None => {},
        }
    } else {
        assert(env.subrange(0, k) =~= env);
        match env_assign(env, name, v) {
            Some(e) => {
                assert(e + env.subrange(k, env.len() as int) =~= e);
            },
            None => {},
        }
    }
}

/// A name and the value bound to it.
#[derive(Debug)]
pub struct Binding {
    pub name: Vec<char>,
    pub value: LiteralValue,
}

pub open spec fn scope_view(sc: Seq<Binding>) -> ScopeView {
    sc.map_values(|b: Binding| (b.name@, b.value@))
}

/// The scope chain of a run: a stack of scopes, the global scope at the bottom.
pub struct Environment {
    pub scopes: Vec<Vec<Binding>>,
}

impl View for Environment {
    type V = EnvView;

    open spec fn view(&self) -> EnvView {
        self.scopes@.map_values(|sc: Vec<Binding>| scope_view(sc@))
    }
}

pub fn same_chars(a: &Vec<char>, b: &Vec<char>) -> (r: bool)
    ensures
        r == (a@ == b@),
{
    if a.len() != b.len() {
        return false;
    }
    let mut i: usize = 0;
    while i < a.len()
        invariant
            a@.len() == b@.len(),
            i <= a@.len(),
            forall|j: int| 0 <= j < i ==> a@[j] == b@[j],
        decreases a@.len() - i,
    {
        if a[i] != b[i] {
            return false;
        }
        i = i + 1;
    }
    assert(a@ =~= b@);
    true
}

/// Position of `name` in a scope, or its length when absent.
fn find_binding(sc: &Vec<Binding>, name: &Vec<char>) -> (r: usize)
    ensures
        r <= sc@.len(),
        r < sc@.len() ==> r as int == find_in(scope_view(sc@), name@),
        r == sc@.len() ==> find_in(scope_view(sc@), name@) == -1,
{
    let mut i = sc.len();
    assert(scope_view(sc@).subrange(0, i as int) =~= scope_view(sc@));
    while i > 0
        invariant
            i <= sc@.len(),
            find_in(scope_view(sc@), name@) == find_in(scope_view(sc@).subrange(0, i as int), name@),
        decreases i,
    {
        let ghost pre = scope_view(sc@).subrange(0, i as int);
        assert(pre.drop_last() =~= scope_view(sc@).subrange(0, i - 1));
        if same_chars(&sc[i - 1].name, name) {
            return i - 1;
        }
        i = i - 1;
    }
    assert(scope_view(sc@).subrange(0, 0) =~= Seq::<(Seq<char>, ValueView)>::empty());
    sc.len()
}

impl Environment {
    /// A chain holding only an empty global scope.
    pub fn new() -> (r: Environment)
        ensures
            r@ == seq![Seq::<(Seq<char>, ValueView)>::empty()],
            r.scopes@.len() == 1,
    {
        let mut scopes: Vec<Vec<Binding>> = Vec::new();
        scopes.push(Vec::new());
        let r = Environment { scopes };
        assert(r.scopes@[0]@.len() == 0);
        assert(scope_view(r.scopes@[0]@) =~= Seq::<(Seq<char>, ValueView)>::empty());
        assert(r@ =~= seq![Seq::<(Seq<char>, ValueView)>::empty()]);
        r
    }
}

pub open spec fn value_opt_view(o: Option<LiteralValue>) -> Option<ValueView> {
    match o {
        Some(v) => Some(v@),
        None => None,
    }
}

impl Environment {
    pub open spec fn wf(&self) -> bool {
        self.scopes@.len() > 0
    }

    /// The value of `name` in the innermost scope that binds it.
    pub fn get(&self, name: &Vec<char>) -> (r: Option<LiteralValue>)
        ensures
            value_opt_view(r) == env_get(self@, name@),
    {
        let ghost env = self@;
        let mut k = self.scopes.len();
        while k > 0
            invariant
                k <= self.scopes@.len(),
                env == self@,
                forall|j: int| k <= j < env.len() ==> find_in(#[trigger] env[j], name@) < 0,
            decreases k,
        {
            let i = find_binding(&self.scopes[k - 1], name);
            if i < self.scopes[k - 1].len() {
                proof {
                    lemma_get_skip(env, name@, k as int);
                    let pre = env.subrange(0, k as int);
                    assert(pre.last() == env[k - 1]);
                }
                return Some(self.scopes[k - 1][i].value.duplicate());
            }
            k = k - 1;
        }
        proof {
            lemma_get_skip(env, name@, 0);
        }
        None
    }

    /// Binds `name` to `value` in the innermost scope, replacing a binding of the same name there.
    pub fn define(&mut self, name: Vec<char>, value: LiteralValue)
        requires
            old(self).wf(),
        ensures
            final(self).wf(),
            final(self)@.len() == old(self)@.len(),
            final(self)@ == env_define(old(self)@, name@, value@),
    {
        let l = self.scopes.len() - 1;
        let ghost env = self@;
        let ghost nm = name@;
        let ghost vv = value@;
        let i = find_binding(&self.scopes[l], &name);
        proof {
            lemma_find_in(env[l as int], nm);
            assert(env.last() == env[l as int]);
            assert(env[l as int] == scope_view(self.scopes@[l as int]@));
        }
        if i < self.scopes[l].len() {
            self.scopes[l][i].value = value;
            proof {
                assert(scope_view(self.scopes@[l as int]@) =~= env[l as int].update(i as int, (nm, vv)));
            }
        } else {
            self.scopes[l].push(Binding { name, value });
            proof {
                assert(scope_view(self.scopes@[l as int]@) =~= env[l as int].push((nm, vv)));
            }
        }
        proof {
            assert(self@ =~= env_define(env, nm, vv));
        }
    }
}

impl Environment {
    /// Rebinds `name` to `value` in the innermost scope that binds it; false, with nothing
    /// changed, when no scope binds it.
    pub fn assign(&mut self, name: &Vec<char>, value: LiteralValue) -> (r: bool)
        requires
            old(self).wf(),
        ensures
            final(self).wf(),
            final(self)@.len() == old(self)@.len(),
            r == env_assign(old(self)@, name@, value@) is Some,
            r ==> Some(final(self)@) == env_assign(old(self)@, name@, value@),
            !r ==> final(self)@ == old(self)@,
    {
        let ghost env = self@;
        let ghost vv = value@;
        let mut k = self.scopes.len();
        while k > 0
            invariant
                k <= self.scopes@.len(),
                env == self@,
                env == old(self)@,
                vv == value@,
                forall|j: int| k <= j < env.len() ==> find_in(#[trigger] env[j], name@) < 0,
            decreases k,
        {
            let i = find_binding(&self.scopes[k - 1], name);
            if i < self.scopes[k - 1].len() {
                proof {
                    lemma_assign_skip(env, name@, vv, k as int);
                    lemma_find_in(env[k - 1], name@);
                    let pre = env.subrange(0, k as int);
                    assert(pre.last() == env[k - 1]);
                    assert(env[k - 1] == scope_view(self.scopes@[k - 1]@));
                    assert(env[k - 1][i as int].0 == name@);
                    assert(env_assign(pre, name@, vv) == Some(
                        pre.update(k - 1, env[k - 1].update(i as int, (name@, vv))),
                    ));
                }
                let kk = k - 1;
                let ghost old_sc = self.scopes@[kk as int]@;
                self.scopes[kk][i].value = value;
                proof {
                    assert(self.scopes@[kk as int]@ == old_sc.update(i as int, Binding { name: old_sc[i as int].name, value }));
                    assert(self.scopes@[kk as int]@[i as int].value@ == vv);
                    assert(self.scopes@[kk as int]@[i as int].name@ == name@);
                    assert(forall|j: int| 0 <= j < old_sc.len() && j != i ==> self.scopes@[kk as int]@[j] == old_sc[j]);
                    let pre = env.subrange(0, k as int);
                    let upd = env[k - 1].update(i as int, (name@, vv));
                    assert(self.scopes@[kk as int]@.len() == env[k - 1].len());
                    assert(forall|j: int| 0 <= j < upd.len() ==> #[trigger] scope_view(self.scopes@[kk as int]@)[j] == upd[j]);
                    assert(scope_view(self.scopes@[kk as int]@) =~= upd);
                    assert(pre.update(k - 1, upd) + env.subrange(k as int, env.len() as int) =~= self@);
                }
                return true;
            }
            k = k - 1;
        }
        proof {
            lemma_assign_skip(env, name@, vv, 0);
        }
        false
    }

    /// Opens a new innermost scope.
    pub fn push_scope(&mut self)
        ensures
            final(self)@ == old(self)@.push(Seq::empty()),
            final(self).wf(),
    {
        self.scopes.push(Vec::new());
        proof {
            assert(scope_view(self.scopes@.last()@) =~= Seq::<(Seq<char>, ValueView)>::empty());
            assert(self@ =~= old(self)@.push(Seq::empty()));
        }
    }

    /// Discards the innermost scope.
    pub fn pop_scope(&mut self)
        requires
            old(self)@.len() > 1,
        ensures
            final(self)@ == old(self)@.drop_last(),
            final(self).wf(),
    {
        let _ = self.scopes.pop();
        proof {
            assert(self@ =~= old(self)@.drop_last());
        }
    }
}

} // verus!
