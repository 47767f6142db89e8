use vstd::prelude::*;
use vstd::string::StringExecFns;
use crate::list::List;

verus! {

/// The five built-in operations of the primitive table.
#[derive(Debug, Clone, Copy, PartialEq, Eq, Structural)]
pub enum PrimKind {
    Car,
    Cdr,
    Atom,
    Eq,
    Cons,
}

/// A symbol: an immutable name. Two symbols are equal iff their names are.
#[derive(Debug)]
pub struct Atom(pub String);

/// A built-in function value, carrying which of the five operations it is.
#[derive(Debug)]
pub struct Primitive {
    pub kind: PrimKind,
}

/// A closure: a parameter specification, a body, and a handle on the local
/// scope chain that was current when the closure was made (`None` at top
/// level). The handle indexes the frame arena of the `Env` the closure lives
/// in; growth of the shared top-level scopes after creation stays visible.
#[derive(Debug)]
pub struct Lambda {
    pub params: Box<Expr>,
    pub body: Box<Expr>,
    pub frame: Option<usize>,
}

/// A function value: a primitive or a closure.
#[derive(Debug)]
pub enum Func {
    Primitive(Primitive),
    Lambda(Lambda),
}

/// An expression and value: the single homoiconic representation. A symbol,
/// a list, or a function.
#[derive(Debug)]
pub enum Expr {
    Atom(Atom),
    List(List),
    Func(Func),
}

/// Mathematical image of a function value.
#[verifier::ext_equal]
pub enum FuncV {
    Primitive(PrimKind),
    Lambda { params: Box<ExprV>, body: Box<ExprV>, frame: Option<int> },
}

/// Mathematical image of an expression: symbols are character sequences,
/// lists are sequences of images.
#[verifier::ext_equal]
pub enum ExprV {
    Atom(Seq<char>),
    List(Seq<ExprV>),
    Func(FuncV),
}

/// The canonical nil value: the empty list.
pub open spec fn nil_v() -> ExprV {
    ExprV::List(Seq::empty())
}

/// The canonical true value: the symbol `t`.
pub open spec fn true_v() -> ExprV {
    ExprV::Atom("t"@)
}

/// Image of the frame handle a closure carries.
pub open spec fn frame_view(f: Option<usize>) -> Option<int> {
    match f {
        Some(p) => Some(p as int),
        None => None,
    }
}

/// Pointwise image of a sequence of expressions.
pub open spec fn views_of(s: Seq<Expr>) -> Seq<ExprV>
    decreases s,
{
    if s.len() == 0 {
        Seq::empty()
    } else {
        seq![s[0].view()] + views_of(s.subrange(1, s.len() as int))
    }
}

pub broadcast proof fn lemma_views_of(s: Seq<Expr>)
    ensures
        (#[trigger] views_of(s)).len() == s.len(),
        forall|i: int| 0 <= i < s.len() ==> views_of(s)[i] == s[i].view(),
    decreases s,
{
    if s.len() > 0 {
        lemma_views_of(s.subrange(1, s.len() as int));
    }
}

impl Atom {
    pub open spec fn view(self) -> Seq<char> {
        self.0@
    }
}

impl Primitive {
    pub open spec fn view(self) -> FuncV {
        FuncV::Primitive(self.kind)
    }
}

impl Lambda {
    pub open spec fn view(self) -> FuncV
        decreases self,
    {
        FuncV::Lambda {
            params: Box::new((*self.params).view()),
            body: Box::new((*self.body).view()),
            frame: frame_view(self.frame),
        }
    }
}

impl Func {
    pub open spec fn view(self) -> FuncV
        decreases self,
    {
        match self {
            Func::Primitive(p) => p.view(),
            Func::Lambda(l) => l.view(),
        }
    }
}

impl Expr {
    pub open spec fn view(self) -> ExprV
        decreases self,
    {
        match self {
            Expr::Atom(a) => ExprV::Atom(a.view()),
            Expr::List(l) => ExprV::List(l.view()),
            Expr::Func(f) => ExprV::Func(f.view()),
        }
    }

    /// The canonical nil value, the empty list.
    pub fn new_nil() -> (r: Expr)
        ensures
            r.view() == nil_v(),
    {
        let r = Expr::List(List::new());
        proof {
            assert(r.view() =~= nil_v());
        }
        r
    }

    /// The canonical true value, the symbol `t`.
    pub fn new_true() -> (r: Expr)
        ensures
            r.view() == true_v(),
    {
        Expr::Atom(Atom(String::from_str("t")))
    }

    /// A deep copy: same value, fresh ownership.
    pub fn dup(&self) -> (r: Expr)
        ensures
            r.view() == self.view(),
        decreases *self,
    {
        match self {
            Expr::Atom(a) => Expr::Atom(Atom(a.0.clone())),
            Expr::List(l) => Expr::List(l.dup()),
            Expr::Func(Func::Primitive(p)) => Expr::Func(Func::Primitive(Primitive { kind: p.kind })),
            Expr::Func(Func::Lambda(l)) => Expr::Func(
                Func::Lambda(
                    Lambda {
                        params: Box::new(l.params.dup()),
                        body: Box::new(l.body.dup()),
                        frame: match l.frame {
                            Some(f) => Some(f),
                            None => None,
                        },
                    },
                ),
            ),
        }
    }
}

/// Whether two expressions denote the same value: structural equality on
/// symbols and lists; primitives equal iff the same operation; closures equal
/// iff parameters, body and captured scope handle all coincide.
pub fn expr_eq(a: &Expr, b: &Expr) -> (r: bool)
    ensures
        r == (a.view() == b.view()),
    decreases *a,
{
    match (a, b) {
        (Expr::Atom(x), Expr::Atom(y)) => x.0 == y.0,
        (Expr::List(x), Expr::List(y)) => {
            if x.len() != y.len() {
                proof {
                    assert(x.view().len() != y.view().len());
                }
                false
            } else {
                let n = x.len();
                proof {
                    lemma_views_of(x.items@);
                    lemma_views_of(y.items@);
                }
                let mut i: usize = 0;
                while i < n
                    invariant
                        n == x.view().len() && n == y.view().len(),
                        n == x.items@.len() && n == y.items@.len(),
                        *a == Expr::List(*x),
                        *b == Expr::List(*y),
                        i <= n,
                        forall|j: int| 0 <= j < i ==> x.view()[j] == y.view()[j],
                    decreases n - i,
                {
                    proof {
                        lemma_views_of(x.items@);
                        lemma_views_of(y.items@);
                    }
                    if !expr_eq(&x.items[i], &y.items[i]) {
                        proof {
                            assert(x.view()[i as int] != y.view()[i as int]);
                        }
                        return false;
                    }
                    i = i + 1;
                }
                proof {
                    assert(x.view() =~= y.view());
                }
                true
            }
        },
        (Expr::Func(Func::Primitive(x)), Expr::Func(Func::Primitive(y))) => x.kind == y.kind,
        (Expr::Func(Func::Lambda(x)), Expr::Func(Func::Lambda(y))) => {
            let frames_match = match (x.frame, y.frame) {
                (Some(p), Some(q)) => p == q,
                (None, None) => true,
                _ => false,
            };
            frames_match && expr_eq(&x.params, &y.params) && expr_eq(&x.body, &y.body)
        },
        _ => false,
    }
}

/// The display name of a primitive.
pub open spec fn prim_name(k: PrimKind) -> Seq<char> {
    match k {
        PrimKind::Car => "car"@,
        PrimKind::Cdr => "cdr"@,
        PrimKind::Atom => "atom"@,
        PrimKind::Eq => "eq"@,
        PrimKind::Cons => "cons"@,
    }
}

/// The printed representation of a value. A symbol prints as its name; a
/// list headed by the symbol `quote` with at least one more element prints as
/// `'` followed by its second element; any other list prints as its elements
/// separated by single spaces between parentheses; a primitive prints as its
/// name; a closure prints as a `lambda` form.
pub open spec fn print_v(e: ExprV) -> Seq<char>
    decreases e, 0int,
{
    match e {
        ExprV::Atom(name) => name,
        ExprV::List(items) => {
            if items.len() >= 2 && items[0] == ExprV::Atom("quote"@) {
                seq!['\''] + print_v(items[1])
            } else {
                "("@ + print_items_from(items, 0) + ")"@
            }
        },
        ExprV::Func(FuncV::Primitive(k)) => prim_name(k),
        ExprV::Func(FuncV::Lambda { params, body, frame }) => "(lambda "@ + print_v(*params)
            + " "@ + print_v(*body) + ")"@,
    }
}

/// The printed elements of a list from position `i` on, separated by single
/// spaces.
pub open spec fn print_items_from(s: Seq<ExprV>, i: int) -> Seq<char>
    decreases s, s.len() - i,
{
    if i < 0 || i >= s.len() {
        Seq::empty()
    } else if i == s.len() - 1 {
        print_v(s[i])
    } else {
        print_v(s[i]) + " "@ + print_items_from(s, i + 1)
    }
}

/// Whether an expression is the symbol with a given name.
pub(crate) fn atom_is(e: &Expr, s: &str) -> (r: bool)
    ensures
        r == (e.view() == ExprV::Atom(s@)),
{
    match e {
        Expr::Atom(a) => {
            let t = String::from_str(s);
            a.0 == t
        },
        _ => false,
    }
}

impl Expr {
    /// Render the printed representation of the value.
    pub fn to_text(&self) -> (r: String)
        ensures
            r@ == print_v(self.view()),
        decreases *self, 0int,
    {
        match self {
            Expr::Atom(a) => a.0.clone(),
            Expr::List(l) => {
                proof {
                    lemma_views_of(l.items@);
                }
                let sugar = if l.items.len() >= 2 {
                    atom_is(&l.items[0], "quote")
                } else {
                    false
                };
                if sugar {
                    let inner = l.items[1].to_text();
                    let r = String::from_str("'").concat(inner.as_str());
                    proof {
                        reveal_strlit("'");
                        assert(r@ =~= print_v(self.view()));
                    }
                    r
                } else {
                    let middle = items_text(&l.items, 0);
                    let r = String::from_str("(").concat(middle.as_str()).concat(")");
                    proof {
                        assert(r@ =~= print_v(self.view()));
                    }
                    r
                }
            },
            Expr::Func(Func::Primitive(p)) => {
                let r = match p.kind {
                    PrimKind::Car => String::from_str("car"),
                    PrimKind::Cdr => String::from_str("cdr"),
                    PrimKind::Atom => String::from_str("atom"),
                    PrimKind::Eq => String::from_str("eq"),
                    PrimKind::Cons => String::from_str("cons"),
                };
                r
            },
            Expr::Func(Func::Lambda(l)) => {
                let p = l.params.to_text();
                let b = l.body.to_text();
                let r = String::from_str("(lambda ").concat(p.as_str()).concat(" ").concat(
                    b.as_str(),
                ).concat(")");
                proof {
                    assert(r@ =~= print_v(self.view()));
                }
                r
            },
        }
    }
}

/// Render the elements of a vector of expressions from position `i` on,
/// separated by single spaces.
fn items_text(v: &Vec<Expr>, i: usize) -> (r: String)
    requires
        i <= v@.len(),
    ensures
        r@ == print_items_from(views_of(v@), i as int),
    decreases *v, v@.len() - i,
{
    proof {
        lemma_views_of(v@);
    }
    if i >= v.len() {
        String::new()
    } else if i == v.len() - 1 {
        v[i].to_text()
    } else {
        let head = v[i].to_text();
        let rest = items_text(v, i + 1);
        let r = head.concat(" ").concat(rest.as_str());
        proof {
            assert(r@ =~= print_items_from(views_of(v@), i as int));
        }
        r
    }
}


/// Whether every closure handle inside the value points below `n`, the number
/// of frames in the arena of the environment the value lives in.
pub open spec fn expr_wf(e: ExprV, n: int) -> bool
    decreases e,
{
    match e {
        ExprV::Atom(_) => true,
        ExprV::List(items) => exprs_wf(items, n),
        ExprV::Func(f) => func_wf(f, n),
    }
}

/// Well-formedness of a function value against an arena of `n` frames.
pub open spec fn func_wf(f: FuncV, n: int) -> bool
    decreases f,
{
    match f {
        FuncV::Primitive(_) => true,
        FuncV::Lambda { params, body, frame } => expr_wf(*params, n) && expr_wf(*body, n) && (match frame {
            Some(p) => 0 <= p < n,
            None => true,
        }),
    }
}

/// Well-formedness of every element of a sequence of values.
pub open spec fn exprs_wf(s: Seq<ExprV>, n: int) -> bool
    decreases s,
{
    s.len() == 0 || (expr_wf(s[0], n) && exprs_wf(s.subrange(1, s.len() as int), n))
}

pub broadcast proof fn lemma_exprs_wf(s: Seq<ExprV>, n: int)
    ensures
        #[trigger] exprs_wf(s, n) <==> (forall|i: int| 0 <= i < s.len() ==> expr_wf(s[i], n)),
    decreases s,
{
    if s.len() > 0 {
        lemma_exprs_wf(s.subrange(1, s.len() as int), n);
        if exprs_wf(s, n) {
            assert forall|i: int| 0 <= i < s.len() implies expr_wf(s[i], n) by {
                if i > 0 {
                    assert(s.subrange(1, s.len() as int)[i - 1] == s[i]);
                }
            }
        } else {
            if expr_wf(s[0], n) && exprs_wf(s.subrange(1, s.len() as int), n) {
                assert(false);
            }
        }
    }
}

/// A value well formed against a small arena stays well formed when the arena
/// grows: handles only ever point at existing frames.
pub proof fn lemma_expr_wf_mono(e: ExprV, n: int, m: int)
    requires
        expr_wf(e, n),
        n <= m,
    ensures
        expr_wf(e, m),
    decreases e,
{
    match e {
        ExprV::Atom(_) => {},
        ExprV::List(items) => {
            lemma_exprs_wf_mono(items, n, m);
        },
        ExprV::Func(f) => match f {
            FuncV::Primitive(_) => {},
            FuncV::Lambda { params, body, frame } => {
                lemma_expr_wf_mono(*params, n, m);
                lemma_expr_wf_mono(*body, n, m);
            },
        },
    }
}

pub proof fn lemma_exprs_wf_mono(s: Seq<ExprV>, n: int, m: int)
    requires
        exprs_wf(s, n),
        n <= m,
    ensures
        exprs_wf(s, m),
    decreases s,
{
    if s.len() > 0 {
        lemma_expr_wf_mono(s[0], n, m);
        lemma_exprs_wf_mono(s.subrange(1, s.len() as int), n, m);
    }
}


} // verus!
