use vstd::prelude::*;
use vstd::string::StringExecFns;
use crate::expr::{
    expr_eq, expr_wf, frame_view, lemma_expr_wf_mono, Atom, Expr, ExprV, Func, FuncV, PrimKind,
    Primitive,
};

verus! {

/// One scope: an ordered run of bindings. Within a scope the earliest
/// binding of a key wins.
pub type Scope = Vec<(Expr, Expr)>;

/// One call frame in the arena: its bindings and the frame it chains to
/// (`None` when the chain ends at the shared top-level scopes).
#[derive(Debug)]
pub struct Frame {
    pub bindings: Scope,
    pub parent: Option<usize>,
}

/// The environment. `top` holds the persistent top-level scopes, innermost
/// last; every evaluation shares them, so bindings added there after a
/// closure is made stay visible to it. `frames` is an arena of call frames;
/// closures hold indices into it, and frames are never removed, so a closure
/// outlives the call that made its scope.
#[derive(Debug)]
pub struct Env {
    pub top: Vec<Scope>,
    pub frames: Vec<Frame>,
}

/// Mathematical image of a frame.
#[verifier::ext_equal]
pub struct FrameV {
    pub bindings: Seq<(ExprV, ExprV)>,
    pub parent: Option<int>,
}

/// Mathematical image of the environment.
#[verifier::ext_equal]
pub struct EnvV {
    pub top: Seq<Seq<(ExprV, ExprV)>>,
    pub frames: Seq<FrameV>,
}

/// Image of one binding.
pub open spec fn binding_view(b: (Expr, Expr)) -> (ExprV, ExprV) {
    (b.0.view(), b.1.view())
}

/// Pointwise image of a scope.
pub open spec fn scope_view(s: Seq<(Expr, Expr)>) -> Seq<(ExprV, ExprV)>
    decreases s,
{
    if s.len() == 0 {
        Seq::empty()
    } else {
        seq![binding_view(s[0])] + scope_view(s.subrange(1, s.len() as int))
    }
}

pub broadcast proof fn lemma_scope_view(s: Seq<(Expr, Expr)>)
    ensures
        (#[trigger] scope_view(s)).len() == s.len(),
        forall|i: int| 0 <= i < s.len() ==> scope_view(s)[i] == binding_view(s[i]),
    decreases s,
{
    if s.len() > 0 {
        lemma_scope_view(s.subrange(1, s.len() as int));
    }
}

/// Pointwise image of a run of scopes.
pub open spec fn scopes_view(s: Seq<Scope>) -> Seq<Seq<(ExprV, ExprV)>>
    decreases s,
{
    if s.len() == 0 {
        Seq::empty()
    } else {
        seq![scope_view(s[0]@)] + scopes_view(s.subrange(1, s.len() as int))
    }
}

pub broadcast proof fn lemma_scopes_view(s: Seq<Scope>)
    ensures
        (#[trigger] scopes_view(s)).len() == s.len(),
        forall|i: int| 0 <= i < s.len() ==> scopes_view(s)[i] == scope_view(s[i]@),
    decreases s,
{
    if s.len() > 0 {
        lemma_scopes_view(s.subrange(1, s.len() as int));
    }
}

/// Image of one frame.
pub open spec fn single_frame_view(f: Frame) -> FrameV {
    FrameV { bindings: scope_view(f.bindings@), parent: frame_view(f.parent) }
}

/// Pointwise image of the frame arena.
pub open spec fn frames_view(s: Seq<Frame>) -> Seq<FrameV>
    decreases s,
{
    if s.len() == 0 {
        Seq::empty()
    } else {
        seq![single_frame_view(s[0])] + frames_view(s.subrange(1, s.len() as int))
    }
}

pub broadcast proof fn lemma_frames_view(s: Seq<Frame>)
    ensures
        (#[trigger] frames_view(s)).len() == s.len(),
        forall|i: int| 0 <= i < s.len() ==> frames_view(s)[i] == single_frame_view(s[i]),
    decreases s,
{
    if s.len() > 0 {
        lemma_frames_view(s.subrange(1, s.len() as int));
    }
}

/// Well-formedness of one binding against an arena of `n` frames.
pub open spec fn binding_wf(b: (ExprV, ExprV), n: int) -> bool {
    expr_wf(b.0, n) && expr_wf(b.1, n)
}

/// Well-formedness of every binding of a scope.
pub open spec fn scope_wf(s: Seq<(ExprV, ExprV)>, n: int) -> bool {
    forall|i: int| 0 <= i < s.len() ==> #[trigger] binding_wf(s[i], n)
}

/// Well-formedness of a frame standing at position `i` of an arena of `n`
/// frames: its parent points strictly below it, its bindings into the arena.
pub open spec fn frame_wf(f: FrameV, i: int, n: int) -> bool {
    scope_wf(f.bindings, n) && (match f.parent {
        Some(p) => 0 <= p < i,
        None => true,
    })
}

/// The environment invariant: parents point strictly downwards (so scope
/// chains end), and every stored value's closure handles point at existing
/// frames.
pub open spec fn env_wf(env: EnvV) -> bool {
    &&& forall|i: int|
        0 <= i < env.frames.len() ==> #[trigger] frame_wf(env.frames[i], i, env.frames.len() as int)
    &&& forall|j: int| 0 <= j < env.top.len() ==> #[trigger] scope_wf(env.top[j], env.frames.len() as int)
}

/// A valid current-frame handle: absent, or pointing at an existing frame.
pub open spec fn cur_wf(cur: Option<int>, env: EnvV) -> bool {
    match cur {
        Some(f) => 0 <= f < env.frames.len(),
        None => true,
    }
}

/// The first binding of `key` in one scope, earliest first.
pub open spec fn scope_lookup(s: Seq<(ExprV, ExprV)>, key: ExprV) -> Option<ExprV>
    decreases s,
{
    if s.len() == 0 {
        None
    } else if s[0].0 == key {
        Some(s[0].1)
    } else {
        scope_lookup(s.subrange(1, s.len() as int), key)
    }
}

/// The binding of `key` along a chain of call frames, innermost first.
pub open spec fn frames_lookup(frames: Seq<FrameV>, cur: Option<int>, key: ExprV) -> Option<ExprV>
    decreases
            (match cur {
                Some(f) => f + 1,
                None => 0,
            }),
{
    match cur {
        None => None,
        Some(f) => {
            if 0 <= f < frames.len() {
                match scope_lookup(frames[f].bindings, key) {
                    Some(v) => Some(v),
                    None => {
                        match frames[f].parent {
                            Some(p) => {
                                if 0 <= p < f {
                                    frames_lookup(frames, Some(p), key)
                                } else {
                                    None
                                }
                            },
                            None => None,
                        }
                    },
                }
            } else {
                None
            }
        },
    }
}

/// The binding of `key` in the top-level scopes, innermost (latest) first.
pub open spec fn top_lookup(top: Seq<Seq<(ExprV, ExprV)>>, key: ExprV) -> Option<ExprV>
    decreases top,
{
    if top.len() == 0 {
        None
    } else {
        match scope_lookup(top[top.len() - 1], key) {
            Some(v) => Some(v),
            None => top_lookup(top.subrange(0, top.len() - 1), key),
        }
    }
}

/// The binding of `key` seen from frame `cur`: the local scope chain first,
/// then the shared top-level scopes.
pub open spec fn lookup_v(env: EnvV, cur: Option<int>, key: ExprV) -> Option<ExprV> {
    match frames_lookup(env.frames, cur, key) {
        Some(v) => Some(v),
        None => top_lookup(env.top, key),
    }
}

/// The global scope: the five primitives under their names.
pub open spec fn global_scope_v() -> Seq<(ExprV, ExprV)> {
    seq![
        (ExprV::Atom("car"@), ExprV::Func(FuncV::Primitive(PrimKind::Car))),
        (ExprV::Atom("cdr"@), ExprV::Func(FuncV::Primitive(PrimKind::Cdr))),
        (ExprV::Atom("atom"@), ExprV::Func(FuncV::Primitive(PrimKind::Atom))),
        (ExprV::Atom("eq"@), ExprV::Func(FuncV::Primitive(PrimKind::Eq))),
        (ExprV::Atom("cons"@), ExprV::Func(FuncV::Primitive(PrimKind::Cons))),
    ]
}

/// The starting environment: one top-level scope holding the primitives, and
/// an empty frame arena.
pub open spec fn global_env_v() -> EnvV {
    EnvV { top: seq![global_scope_v()], frames: Seq::empty() }
}

pub proof fn lemma_global_env_wf()
    ensures
        env_wf(global_env_v()),
        cur_wf(None, global_env_v()),
{
    assert forall|j: int| 0 <= j < global_env_v().top.len() implies #[trigger] scope_wf(
        global_env_v().top[j],
        0,
    ) by {
        assert forall|i: int| 0 <= i < global_scope_v().len() implies #[trigger] binding_wf(
            global_scope_v()[i],
            0,
        ) by {
            assert(global_scope_v()[i].0 is Atom);
            assert(global_scope_v()[i].1 ->Func_0 is Primitive);
        }
    }
}

/// The environment after a definition: one new single-binding top-level
/// scope, the frame arena untouched.
pub open spec fn env_push_top(env: EnvV, k: ExprV, v: ExprV) -> EnvV {
    EnvV { top: env.top.push(seq![(k, v)]), frames: env.frames }
}

/// The environment after a call frame is added to the arena.
pub open spec fn env_push_frame(env: EnvV, f: FrameV) -> EnvV {
    EnvV { top: env.top, frames: env.frames.push(f) }
}

/// Adding a top-level scope of well-formed values keeps the environment well
/// formed.
pub proof fn lemma_env_wf_push_top(env: EnvV, k: ExprV, v: ExprV)
    requires
        env_wf(env),
        expr_wf(k, env.frames.len() as int),
        expr_wf(v, env.frames.len() as int),
    ensures
        env_wf(env_push_top(env, k, v)),
{
    let env2 = env_push_top(env, k, v);
    assert forall|j: int| 0 <= j < env2.top.len() implies #[trigger] scope_wf(
        env2.top[j],
        env2.frames.len() as int,
    ) by {
        if j < env.top.len() {
            assert(scope_wf(env.top[j], env.frames.len() as int));
        } else {
            let sc = env2.top[j];
            assert(sc == seq![(k, v)]);
            assert forall|i: int| 0 <= i < sc.len() implies #[trigger] binding_wf(
                sc[i],
                env2.frames.len() as int,
            ) by {
                assert(sc[i] == (k, v));
            }
        }
    }
}

/// Adding a call frame whose bindings are well formed against the grown
/// arena, and whose parent is a valid handle, keeps the environment well
/// formed.
pub proof fn lemma_env_wf_push_frame(env: EnvV, f: FrameV)
    requires
        env_wf(env),
        scope_wf(f.bindings, env.frames.len() + 1 as int),
        match f.parent {
            Some(p) => 0 <= p < env.frames.len(),
            None => true,
        },
    ensures
        env_wf(env_push_frame(env, f)),
{
    let env2 = env_push_frame(env, f);
    let n = env.frames.len() as int;
    assert forall|i: int| 0 <= i < env2.frames.len() implies #[trigger] frame_wf(
        env2.frames[i],
        i,
        env2.frames.len() as int,
    ) by {
        if i < n {
            assert(frame_wf(env.frames[i], i, n));
            lemma_scope_wf_mono(env.frames[i].bindings, n, n + 1);
            assert(env2.frames[i] == env.frames[i]);
        } else {
            assert(env2.frames[i] == f);
        }
    }
    assert forall|j: int| 0 <= j < env2.top.len() implies #[trigger] scope_wf(
        env2.top[j],
        env2.frames.len() as int,
    ) by {
        assert(scope_wf(env.top[j], n));
        lemma_scope_wf_mono(env.top[j], n, n + 1);
    }
}

/// Scope well-formedness persists when the arena grows.
pub proof fn lemma_scope_wf_mono(s: Seq<(ExprV, ExprV)>, n: int, m: int)
    requires
        scope_wf(s, n),
        n <= m,
    ensures
        scope_wf(s, m),
{
    assert forall|i: int| 0 <= i < s.len() implies #[trigger] binding_wf(s[i], m) by {
        assert(binding_wf(s[i], n));
        lemma_expr_wf_mono(s[i].0, n, m);
        lemma_expr_wf_mono(s[i].1, n, m);
    }
}

/// Environment growth: everything already present is untouched; new frames
/// and new top-level scopes may only be appended.
pub open spec fn env_extends(old_env: EnvV, new_env: EnvV) -> bool {
    &&& old_env.top.len() <= new_env.top.len()
    &&& old_env.frames.len() <= new_env.frames.len()
    &&& forall|j: int| 0 <= j < old_env.top.len() ==> new_env.top[j] == old_env.top[j]
    &&& forall|i: int| 0 <= i < old_env.frames.len() ==> new_env.frames[i] == old_env.frames[i]
}

/// A value looked up in a well-formed environment is itself well formed.
pub proof fn lemma_lookup_wf(env: EnvV, cur: Option<int>, key: ExprV)
    requires
        env_wf(env),
        lookup_v(env, cur, key) is Some,
    ensures
        expr_wf(lookup_v(env, cur, key)->Some_0, env.frames.len() as int),
{
    let n = env.frames.len() as int;
    match frames_lookup(env.frames, cur, key) {
        Some(v) => {
            lemma_frames_lookup_wf(env, cur, key);
        },
        None => {
            lemma_top_lookup_wf(env.top, key, n);
        },
    }
}

proof fn lemma_scope_lookup_wf(s: Seq<(ExprV, ExprV)>, key: ExprV, n: int)
    requires
        scope_wf(s, n),
        scope_lookup(s, key) is Some,
    ensures
        expr_wf(scope_lookup(s, key)->Some_0, n),
    decreases s,
{
    if s.len() > 0 {
        if s[0].0 == key {
            assert(binding_wf(s[0], n));
        } else {
            let s2 = s.subrange(1, s.len() as int);
            assert forall|i: int| 0 <= i < s2.len() implies #[trigger] binding_wf(s2[i], n) by {
                assert(s2[i] == s[i + 1]);
                assert(binding_wf(s[i + 1], n));
            }
            lemma_scope_lookup_wf(s2, key, n);
        }
    }
}

proof fn lemma_frames_lookup_wf(env: EnvV, cur: Option<int>, key: ExprV)
    requires
        env_wf(env),
        frames_lookup(env.frames, cur, key) is Some,
    ensures
        expr_wf(frames_lookup(env.frames, cur, key)->Some_0, env.frames.len() as int),
    decreases
            (match cur {
                Some(f) => f + 1,
                None => 0,
            }),
{
    let n = env.frames.len() as int;
    match cur {
        None => {},
        Some(f) => {
            if 0 <= f < n {
                assert(frame_wf(env.frames[f], f, n));
                match scope_lookup(env.frames[f].bindings, key) {
                    Some(v) => {
                        lemma_scope_lookup_wf(env.frames[f].bindings, key, n);
                    },
                    None => {
                        lemma_frames_lookup_wf(env, env.frames[f].parent, key);
                    },
                }
            }
        },
    }
}

proof fn lemma_top_lookup_wf(top: Seq<Seq<(ExprV, ExprV)>>, key: ExprV, n: int)
    requires
        forall|j: int| 0 <= j < top.len() ==> #[trigger] scope_wf(top[j], n),
        top_lookup(top, key) is Some,
    ensures
        expr_wf(top_lookup(top, key)->Some_0, n),
    decreases top,
{
    if top.len() > 0 {
        match scope_lookup(top[top.len() - 1], key) {
            Some(v) => {
                lemma_scope_lookup_wf(top[top.len() - 1], key, n);
            },
            None => {
                let t2 = top.subrange(0, top.len() - 1);
                assert forall|j: int| 0 <= j < t2.len() implies #[trigger] scope_wf(t2[j], n) by {
                    assert(t2[j] == top[j]);
                }
                lemma_top_lookup_wf(t2, key, n);
            },
        }
    }
}

/// One global binding: a primitive's name bound to its function value.
fn new_primitive_scope_pair(name: &str, kind: PrimKind) -> (r: (Expr, Expr))
    ensures
        r.0.view() == ExprV::Atom(name@),
        r.1.view() == ExprV::Func(FuncV::Primitive(kind)),
{
    (
        Expr::Atom(Atom(String::from_str(name))),
        Expr::Func(Func::Primitive(Primitive { kind })),
    )
}

impl Env {
    /// Image of the environment.
    pub open spec fn view(self) -> EnvV {
        EnvV { top: scopes_view(self.top@), frames: frames_view(self.frames@) }
    }

    /// An empty environment: no scopes at all.
    pub fn new() -> (r: Env)
        ensures
            r.view() == (EnvV { top: Seq::<Seq<(ExprV, ExprV)>>::empty(), frames: Seq::<
                FrameV,
            >::empty() }),
    {
        let r = Env { top: Vec::new(), frames: Vec::new() };
        proof {
            assert(r.view() =~= (EnvV {
                top: Seq::<Seq<(ExprV, ExprV)>>::empty(),
                frames: Seq::<FrameV>::empty(),
            }));
        }
        r
    }

    /// The starting environment: the five primitives bound in one top-level
    /// scope.
    pub fn new_global() -> (r: Env)
        ensures
            r.view() == global_env_v(),
            env_wf(r.view()),
    {
        let mut scope: Scope = Vec::new();
        scope.push(new_primitive_scope_pair("car", PrimKind::Car));
        scope.push(new_primitive_scope_pair("cdr", PrimKind::Cdr));
        scope.push(new_primitive_scope_pair("atom", PrimKind::Atom));
        scope.push(new_primitive_scope_pair("eq", PrimKind::Eq));
        scope.push(new_primitive_scope_pair("cons", PrimKind::Cons));
        let mut top: Vec<Scope> = Vec::new();
        top.push(scope);
        let r = Env { top, frames: Vec::new() };
        proof {
            lemma_scope_view(r.top@[0]@);
            assert(scope_view(r.top@[0]@) =~= global_scope_v());
            lemma_scopes_view(r.top@);
            assert(r.view().top =~= global_env_v().top);
            assert(r.view() =~= global_env_v());
            lemma_global_env_wf();
        }
        r
    }

    /// Bind `k` to `v` in a fresh single-binding top-level scope. This is the
    /// persistent growth a definition leaves behind.
    pub fn insert(&mut self, k: &Expr, v: &Expr)
        ensures
            final(self).view() == env_push_top(old(self).view(), k.view(), v.view()),
    {
        let mut scope: Scope = Vec::new();
        scope.push((k.dup(), v.dup()));
        self.top.push(scope);
        proof {
            lemma_scope_view(self.top@[self.top@.len() - 1]@);
            assert(scope_view(self.top@[self.top@.len() - 1]@) =~= seq![(k.view(), v.view())]);
            lemma_scopes_view(self.top@);
            lemma_scopes_view(old(self).top@);
            assert(final(self).view().top =~= env_push_top(
                old(self).view(),
                k.view(),
                v.view(),
            ).top);
            assert(final(self).view() =~= env_push_top(old(self).view(), k.view(), v.view()));
        }
    }

    /// Add one call frame to the arena; its index is the new handle.
    pub fn extend(&mut self, bindings: Scope, parent: Option<usize>) -> (idx: usize)
        ensures
            final(self).view() == env_push_frame(
                old(self).view(),
                FrameV { bindings: scope_view(bindings@), parent: frame_view(parent) },
            ),
            idx == old(self).view().frames.len(),
            final(self).view().frames.len() == old(self).view().frames.len() + 1,
    {
        proof {
            lemma_frames_view(old(self).frames@);
        }
        let idx = self.frames.len();
        let ghost b = bindings@;
        self.frames.push(Frame { bindings, parent });
        proof {
            lemma_frames_view(self.frames@);
            lemma_frames_view(old(self).frames@);
            assert(final(self).view().frames =~= old(self).view().frames.push(
                FrameV { bindings: scope_view(b), parent: frame_view(parent) },
            ));
            assert(final(self).view() =~= env_push_frame(
                old(self).view(),
                FrameV { bindings: scope_view(b), parent: frame_view(parent) },
            ));
        }
        idx
    }
}

/// Find the first binding of `k` in one scope, earliest first.
fn scope_get<'a>(s: &'a Scope, k: &Expr) -> (r: Option<&'a Expr>)
    ensures
        match r {
            Some(v) => scope_lookup(scope_view(s@), k.view()) == Some(v.view()),
            None => scope_lookup(scope_view(s@), k.view()) is None,
        },
{
    let ghost full = scope_view(s@);
    let ghost key = k.view();
    proof {
        lemma_scope_view(s@);
    }
    proof {
        assert(full.subrange(0, full.len() as int) =~= full);
    }
    let mut j: usize = 0;
    while j < s.len()
        invariant
            j <= s@.len(),
            full == scope_view(s@),
            key == k.view(),
            full.len() == s@.len(),
            forall|i: int| 0 <= i < s@.len() ==> full[i] == binding_view(s@[i]),
            scope_lookup(full, key) == scope_lookup(
                full.subrange(j as int, full.len() as int),
                key,
            ),
        decreases s@.len() - j,
    {
        let ghost sub = full.subrange(j as int, full.len() as int);
        proof {
            assert(sub[0] == full[j as int]);
        }
        if expr_eq(&s[j].0, k) {
            return Some(&s[j].1);
        }
        proof {
            assert(sub.subrange(1, sub.len() as int) =~= full.subrange(
                j + 1,
                full.len() as int,
            ));
        }
        j = j + 1;
    }
    proof {
        assert(full.subrange(j as int, full.len() as int) =~= Seq::<(ExprV, ExprV)>::empty());
    }
    None
}

impl Env {
    /// The value bound to `k` as seen from frame `cur`: the local scope chain
    /// first, then the shared top-level scopes, innermost first, and within a
    /// scope the earliest binding.
    pub fn get(&self, cur: Option<usize>, k: &Expr) -> (r: Option<&Expr>)
        requires
            env_wf(self.view()),
            cur_wf(frame_view(cur), self.view()),
        ensures
            match r {
                Some(v) => lookup_v(self.view(), frame_view(cur), k.view()) == Some(v.view()),
                None => lookup_v(self.view(), frame_view(cur), k.view()) is None,
            },
    {
        let ghost env = self.view();
        let ghost key = k.view();
        proof {
            lemma_frames_view(self.frames@);
            lemma_scopes_view(self.top@);
        }
        let mut c: Option<usize> = cur;
        loop
            invariant
                env == self.view(),
                key == k.view(),
                env_wf(env),
                cur_wf(frame_view(c), env),
                env.frames.len() == self.frames@.len(),
                forall|i: int|
                    0 <= i < self.frames@.len() ==> env.frames[i] == single_frame_view(
                        self.frames@[i],
                    ),
                frames_lookup(env.frames, frame_view(c), key) == frames_lookup(
                    env.frames,
                    frame_view(cur),
                    key,
                ),
            ensures
                c is None,
                frames_lookup(env.frames, frame_view(cur), key) is None,
            decreases
                    (match c {
                        Some(f) => f + 1int,
                        None => 0int,
                    }),
        {
            match c {
                None => {
                    break ;
                },
                Some(f) => {
                    proof {
                        assert(frame_wf(env.frames[f as int], f as int, env.frames.len() as int));
                    }
                    let fr = &self.frames[f];
                    match scope_get(&fr.bindings, k) {
                        Some(v) => {
                            return Some(v);
                        },
                        None => {
                            c = fr.parent;
                        },
                    }
                },
            }
        }
        let ghost tv = env.top;
        proof {
            assert(self.top@.len() == tv.len());
        }
        proof {
            assert(tv.subrange(0, tv.len() as int) =~= tv);
        }
        let mut j: usize = self.top.len();
        while j > 0
            invariant
                env == self.view(),
                key == k.view(),
                tv == env.top,
                j <= self.top@.len(),
                tv.len() == self.top@.len(),
                forall|i: int| 0 <= i < self.top@.len() ==> tv[i] == scope_view(self.top@[i]@),
                frames_lookup(env.frames, frame_view(cur), key) is None,
                top_lookup(tv, key) == top_lookup(tv.subrange(0, j as int), key),
            decreases j,
        {
            j = j - 1;
            let ghost sub = tv.subrange(0, j + 1);
            proof {
                assert(sub[sub.len() - 1] == tv[j as int]);
            }
            match scope_get(&self.top[j], k) {
                Some(v) => {
                    return Some(v);
                },
                None => {
                    proof {
                        assert(sub.subrange(0, sub.len() - 1) =~= tv.subrange(0, j as int));
                    }
                },
            }
        }
        proof {
            assert(tv.subrange(0, 0) =~= Seq::<Seq<(ExprV, ExprV)>>::empty());
        }
        None
    }
}

} // verus!
