//! Lowers an S-expression into a syntax tree, checking the shape of every
//! special form on the way. The first violation met, reading left to right,
//! is the error returned.

use vstd::prelude::*;
use super::idents::{Ident, IdentTable, intern_names};
use super::sexp::{Sexp, SexpView, sexp_views, sexp_pair_views, lemma_sexp_view};
use crate::bytecode::OpCode;

verus! {

/// The ways in which a form can be malformed.
#[derive(Copy, Clone, Debug, PartialEq, Eq, Structural)]
pub enum ParseError {
    /// `()` applies nothing.
    EmptyList,
    MalformedIf,
    MalformedLet,
    MalformedSet,
    MalformedRet,
    UnbalancedLetBindings,
    LetBindingsAreNotSymbols,
    LetBindingsNotInVector,
    FnBindingsAreNotSymbols,
    FnBindingsNotInVector,
    UnbalancedCond,
    PrimOpWrongArity,
}

/// The syntax tree.
#[allow(inconsistent_fields)]
pub enum Expr {
    NumLiteral(Ident),
    VectorLiteral(Vec<Expr>),
    MapLiteral(Vec<(Expr, Expr)>),
    Ident(Ident),
    Keyword(Ident),
    Apply { _fn: Box<Expr>, args: Vec<Expr> },
    Let { bindings: Vec<(Ident, Expr)>, body: Box<Expr> },
    Fn { bindings: Vec<Ident>, body: Box<Expr> },
    If { condition: Box<Expr>, resultant: Box<Expr>, else_branch: Box<Expr> },
    Cond(Vec<(Expr, Expr)>),
    PrimOp { op: Ident, left: Box<Expr>, right: Box<Expr> },
    Do(Vec<Expr>),
    Assign(Ident, Box<Expr>),
    Ret(Box<Expr>),
}

/// The mathematical form of a syntax tree.
#[allow(inconsistent_fields)]
pub ghost enum ExprView {
    NumLiteral(Ident),
    VectorLiteral(Seq<ExprView>),
    MapLiteral(Seq<(ExprView, ExprView)>),
    Ident(Ident),
    Keyword(Ident),
    Apply { _fn: Box<ExprView>, args: Seq<ExprView> },
    Let { bindings: Seq<(Ident, ExprView)>, body: Box<ExprView> },
    Fn { bindings: Seq<Ident>, body: Box<ExprView> },
    If { condition: Box<ExprView>, resultant: Box<ExprView>, else_branch: Box<ExprView> },
    Cond(Seq<(ExprView, ExprView)>),
    PrimOp { op: Ident, left: Box<ExprView>, right: Box<ExprView> },
    Do(Seq<ExprView>),
    Assign(Ident, Box<ExprView>),
    Ret(Box<ExprView>),
}

impl View for Expr {
    type V = ExprView;

    open spec fn view(&self) -> ExprView
        decreases self, 0int,
    {
        match self {
            Expr::NumLiteral(n) => ExprView::NumLiteral(*n),
            Expr::VectorLiteral(items) => ExprView::VectorLiteral(
                expr_prefix(*items, items.len() as int),
            ),
            Expr::MapLiteral(items) => ExprView::MapLiteral(
                expr_pair_prefix(*items, items.len() as int),
            ),
            Expr::Ident(i) => ExprView::Ident(*i),
            Expr::Keyword(i) => ExprView::Keyword(*i),
            Expr::Apply { _fn, args } => ExprView::Apply {
                _fn: Box::new((**_fn).view()),
                args: expr_prefix(*args, args.len() as int),
            },
            Expr::Let { bindings, body } => ExprView::Let {
                bindings: binding_prefix(*bindings, bindings.len() as int),
                body: Box::new((**body).view()),
            },
            Expr::Fn { bindings, body } => ExprView::Fn {
                bindings: bindings@,
                body: Box::new((**body).view()),
            },
            Expr::If { condition, resultant, else_branch } => ExprView::If {
                condition: Box::new((**condition).view()),
                resultant: Box::new((**resultant).view()),
                else_branch: Box::new((**else_branch).view()),
            },
            Expr::Cond(items) => ExprView::Cond(expr_pair_prefix(*items, items.len() as int)),
            Expr::PrimOp { op, left, right } => ExprView::PrimOp {
                op: *op,
                left: Box::new((**left).view()),
                right: Box::new((**right).view()),
            },
            Expr::Do(items) => ExprView::Do(expr_prefix(*items, items.len() as int)),
            Expr::Assign(name, value) => ExprView::Assign(*name, Box::new((**value).view())),
            Expr::Ret(value) => ExprView::Ret(Box::new((**value).view())),
        }
    }
}

/// The views of the first `n` of `items`.
pub open spec fn expr_prefix(items: Vec<Expr>, n: int) -> Seq<ExprView>
    decreases items, n,
{
    if n <= 0 || n > items.len() {
        Seq::empty()
    } else {
        expr_prefix(items, n - 1).push(items[n - 1].view())
    }
}

/// The views of the first `n` pairs of `items`.
pub open spec fn expr_pair_prefix(items: Vec<(Expr, Expr)>, n: int) -> Seq<(ExprView, ExprView)>
    decreases items, n,
{
    if n <= 0 || n > items.len() {
        Seq::empty()
    } else {
        expr_pair_prefix(items, n - 1).push((items[n - 1].0.view(), items[n - 1].1.view()))
    }
}

/// The views of the first `n` bindings of `items`.
pub open spec fn binding_prefix(items: Vec<(Ident, Expr)>, n: int) -> Seq<(Ident, ExprView)>
    decreases items, n,
{
    if n <= 0 || n > items.len() {
        Seq::empty()
    } else {
        binding_prefix(items, n - 1).push((items[n - 1].0, items[n - 1].1.view()))
    }
}

pub proof fn lemma_expr_prefix(items: Vec<Expr>, n: int)
    requires
        0 <= n <= items.len(),
    ensures
        expr_prefix(items, n) == expr_views(items@.take(n)),
    decreases n,
{
    if n > 0 {
        lemma_expr_prefix(items, n - 1);
        let a = expr_prefix(items, n);
        let b = expr_views(items@.take(n));
        assert(a == expr_prefix(items, n - 1).push(items[n - 1].view()));
        assert(a.len() == n);
        assert(b.len() == n);
        assert forall|i: int| 0 <= i < n implies a[i] == b[i] by {
            if i < n - 1 {
                assert(a[i] == expr_prefix(items, n - 1)[i]);
                assert(items@.take(n - 1)[i] == items@[i]);
                assert(expr_views(items@.take(n - 1))[i] == b[i]);
            } else {
                assert(a[i] == items[n - 1].view());
            }
            assert(items@.take(n)[i] == items@[i]);
        }
        assert(a =~= b);
    } else {
        assert(expr_prefix(items, n) =~= expr_views(items@.take(n)));
    }
}

pub proof fn lemma_expr_pair_prefix(items: Vec<(Expr, Expr)>, n: int)
    requires
        0 <= n <= items.len(),
    ensures
        expr_pair_prefix(items, n) == expr_pair_views(items@.take(n)),
    decreases n,
{
    if n > 0 {
        lemma_expr_pair_prefix(items, n - 1);
        let a = expr_pair_prefix(items, n);
        let b = expr_pair_views(items@.take(n));
        assert(a == expr_pair_prefix(items, n - 1).push((items[n - 1].0.view(), items[n - 1].1.view())));
        assert(a.len() == n);
        assert(b.len() == n);
        assert forall|i: int| 0 <= i < n implies a[i] == b[i] by {
            if i < n - 1 {
                assert(a[i] == expr_pair_prefix(items, n - 1)[i]);
                assert(items@.take(n - 1)[i] == items@[i]);
                assert(expr_pair_views(items@.take(n - 1))[i] == b[i]);
            } else {
                assert(a[i] == (items[n - 1].0.view(), items[n - 1].1.view()));
            }
            assert(items@.take(n)[i] == items@[i]);
        }
        assert(a =~= b);
    } else {
        assert(expr_pair_prefix(items, n) =~= expr_pair_views(items@.take(n)));
    }
}

pub proof fn lemma_binding_prefix(items: Vec<(Ident, Expr)>, n: int)
    requires
        0 <= n <= items.len(),
    ensures
        binding_prefix(items, n) == binding_views(items@.take(n)),
    decreases n,
{
    if n > 0 {
        lemma_binding_prefix(items, n - 1);
        let a = binding_prefix(items, n);
        let b = binding_views(items@.take(n));
        assert(a == binding_prefix(items, n - 1).push((items[n - 1].0, items[n - 1].1.view())));
        assert(a.len() == n);
        assert(b.len() == n);
        assert forall|i: int| 0 <= i < n implies a[i] == b[i] by {
            if i < n - 1 {
                assert(a[i] == binding_prefix(items, n - 1)[i]);
                assert(items@.take(n - 1)[i] == items@[i]);
                assert(binding_views(items@.take(n - 1))[i] == b[i]);
            } else {
                assert(a[i] == (items[n - 1].0, items[n - 1].1.view()));
            }
            assert(items@.take(n)[i] == items@[i]);
        }
        assert(a =~= b);
    } else {
        assert(binding_prefix(items, n) =~= binding_views(items@.take(n)));
    }
}

/// The view of a tree is built from the views of its parts.
pub proof fn lemma_expr_view(e: &Expr)
    ensures
        match e {
            Expr::VectorLiteral(items) => e@ == ExprView::VectorLiteral(expr_views(items@)),
            Expr::MapLiteral(items) => e@ == ExprView::MapLiteral(expr_pair_views(items@)),
            Expr::Apply { _fn, args } => e@ == (ExprView::Apply {
                _fn: Box::new((**_fn)@),
                args: expr_views(args@),
            }),
            Expr::Let { bindings, body } => e@ == (ExprView::Let {
                bindings: binding_views(bindings@),
                body: Box::new((**body)@),
            }),
            Expr::Cond(items) => e@ == ExprView::Cond(expr_pair_views(items@)),
            Expr::Do(items) => e@ == ExprView::Do(expr_views(items@)),
            _ => true,
        },
{
    match e {
        Expr::VectorLiteral(items) => {
            lemma_expr_prefix(*items, items.len() as int);
            assert(items@.take(items.len() as int) =~= items@);
        },
        Expr::MapLiteral(items) => {
            lemma_expr_pair_prefix(*items, items.len() as int);
            assert(items@.take(items.len() as int) =~= items@);
        },
        Expr::Apply { _fn, args } => {
            lemma_expr_prefix(*args, args.len() as int);
            assert(args@.take(args.len() as int) =~= args@);
        },
        Expr::Let { bindings, body } => {
            lemma_binding_prefix(*bindings, bindings.len() as int);
            assert(bindings@.take(bindings.len() as int) =~= bindings@);
        },
        Expr::Cond(items) => {
            lemma_expr_pair_prefix(*items, items.len() as int);
            assert(items@.take(items.len() as int) =~= items@);
        },
        Expr::Do(items) => {
            lemma_expr_prefix(*items, items.len() as int);
            assert(items@.take(items.len() as int) =~= items@);
        },
        _ => {},
    }
}

/// The views of a run of syntax trees.
pub open spec fn expr_views(items: Seq<Expr>) -> Seq<ExprView> {
    Seq::new(items.len(), |i: int| items[i]@)
}

/// The views of a run of pairs of syntax trees.
pub open spec fn expr_pair_views(items: Seq<(Expr, Expr)>) -> Seq<(ExprView, ExprView)> {
    Seq::new(items.len(), |i: int| (items[i].0@, items[i].1@))
}

/// The views of a run of bindings.
pub open spec fn binding_views(items: Seq<(Ident, Expr)>) -> Seq<(Ident, ExprView)> {
    Seq::new(items.len(), |i: int| (items[i].0, items[i].1@))
}

/// The identifiers of the special forms, interned once so that a head is
/// recognised by comparing two integers.
#[derive(Copy, Clone, Debug)]
pub struct Specials {
    pub _fn: Ident,
    pub _let: Ident,
    pub _cond: Ident,
    pub _if: Ident,
    pub _do: Ident,
    pub _set: Ident,
    pub _ret: Ident,
}

impl Specials {
    /// Interns the names of the special forms, in the order `fn`, `let`, `if`,
    /// `cond`, `set`, `do`, `return`.
    pub fn new_in(st: &mut IdentTable) -> (s: Specials)
        requires
            old(st).wf(),
        ensures
            final(st).wf(),
            final(st)@ == intern_names(
                intern_names(
                    intern_names(
                        intern_names(
                            intern_names(
                                intern_names(intern_names(old(st)@, "fn"@), "let"@),
                                "if"@,
                            ),
                            "cond"@,
                        ),
                        "set"@,
                    ),
                    "do"@,
                ),
                "return"@,
            ),
            s.names_in(final(st)@),
    {
        let _fn = st.intern("fn");
        let ghost t1 = st@;
        let _let = st.intern("let");
        let ghost t2 = st@;
        let _if = st.intern("if");
        let ghost t3 = st@;
        let _cond = st.intern("cond");
        let ghost t4 = st@;
        let _set = st.intern("set");
        let ghost t5 = st@;
        let _do = st.intern("do");
        let ghost t6 = st@;
        let _ret = st.intern("return");
        proof {
            lemma_intern_keeps(t1, "let"@, _fn.0 as int);
            lemma_intern_keeps(t2, "if"@, _fn.0 as int);
            lemma_intern_keeps(t2, "if"@, _let.0 as int);
            lemma_intern_keeps(t3, "cond"@, _fn.0 as int);
            lemma_intern_keeps(t3, "cond"@, _let.0 as int);
            lemma_intern_keeps(t3, "cond"@, _if.0 as int);
            lemma_intern_keeps(t4, "set"@, _fn.0 as int);
            lemma_intern_keeps(t4, "set"@, _let.0 as int);
            lemma_intern_keeps(t4, "set"@, _if.0 as int);
            lemma_intern_keeps(t4, "set"@, _cond.0 as int);
            lemma_intern_keeps(t5, "do"@, _fn.0 as int);
            lemma_intern_keeps(t5, "do"@, _let.0 as int);
            lemma_intern_keeps(t5, "do"@, _if.0 as int);
            lemma_intern_keeps(t5, "do"@, _cond.0 as int);
            lemma_intern_keeps(t5, "do"@, _set.0 as int);
            lemma_intern_keeps(t6, "return"@, _fn.0 as int);
            lemma_intern_keeps(t6, "return"@, _let.0 as int);
            lemma_intern_keeps(t6, "return"@, _if.0 as int);
            lemma_intern_keeps(t6, "return"@, _cond.0 as int);
            lemma_intern_keeps(t6, "return"@, _set.0 as int);
            lemma_intern_keeps(t6, "return"@, _do.0 as int);
        }
        Specials { _fn, _let, _cond, _if, _do, _set, _ret }
    }

    /// Each field is the identifier that `names` gives to its special form.
    pub open spec fn names_in(self, names: Seq<Seq<char>>) -> bool {
        &&& self._fn.0 < names.len() && names[self._fn.0 as int] == "fn"@
        &&& self._let.0 < names.len() && names[self._let.0 as int] == "let"@
        &&& self._if.0 < names.len() && names[self._if.0 as int] == "if"@
        &&& self._cond.0 < names.len() && names[self._cond.0 as int] == "cond"@
        &&& self._set.0 < names.len() && names[self._set.0 as int] == "set"@
        &&& self._do.0 < names.len() && names[self._do.0 as int] == "do"@
        &&& self._ret.0 < names.len() && names[self._ret.0 as int] == "return"@
    }
}

/// Interning a further name leaves the names already there at their places.
pub proof fn lemma_intern_keeps(names: Seq<Seq<char>>, name: Seq<char>, i: int)
    requires
        0 <= i < names.len(),
    ensures
        i < intern_names(names, name).len(),
        intern_names(names, name)[i] == names[i],
{
}

/// The identifiers of the primitive operators, interned once like those of
/// the special forms.
#[derive(Copy, Clone, Debug)]
pub struct Primitives {
    pub add: Ident,
    pub sub: Ident,
    pub mul: Ident,
    pub div: Ident,
    pub lt: Ident,
    pub gt: Ident,
    pub lte: Ident,
    pub gte: Ident,
    pub eq: Ident,
}

impl Primitives {
    /// The opcode of the primitive that `sym` names, if it names one.
    pub open spec fn lookup(self, sym: Ident) -> Option<OpCode> {
        if sym == self.add {
            Some(OpCode::Add)
        } else if sym == self.sub {
            Some(OpCode::Sub)
        } else if sym == self.mul {
            Some(OpCode::Mul)
        } else if sym == self.div {
            Some(OpCode::Div)
        } else if sym == self.lt {
            Some(OpCode::Lt)
        } else if sym == self.gt {
            Some(OpCode::Gt)
        } else if sym == self.lte {
            Some(OpCode::Lte)
        } else if sym == self.gte {
            Some(OpCode::Gte)
        } else if sym == self.eq {
            Some(OpCode::Eq)
        } else {
            None
        }
    }

    /// Each field is the identifier that `names` gives to its operator.
    pub open spec fn names_in(self, names: Seq<Seq<char>>) -> bool {
        &&& self.add.0 < names.len() && names[self.add.0 as int] == "+"@
        &&& self.sub.0 < names.len() && names[self.sub.0 as int] == "-"@
        &&& self.mul.0 < names.len() && names[self.mul.0 as int] == "*"@
        &&& self.div.0 < names.len() && names[self.div.0 as int] == "/"@
        &&& self.lt.0 < names.len() && names[self.lt.0 as int] == "<"@
        &&& self.gt.0 < names.len() && names[self.gt.0 as int] == ">"@
        &&& self.lte.0 < names.len() && names[self.lte.0 as int] == "<="@
        &&& self.gte.0 < names.len() && names[self.gte.0 as int] == ">="@
        &&& self.eq.0 < names.len() && names[self.eq.0 as int] == "eq"@
    }

    /// Interns the names of the nine primitive operators, in the order `+`,
    /// `-`, `*`, `/`, `<`, `>`, `<=`, `>=`, `eq`.
    pub fn new_in(it: &mut IdentTable) -> (p: Primitives)
        requires
            old(it).wf(),
        ensures
            final(it).wf(),
            final(it)@ == intern_names(
                intern_names(
                    intern_names(
                        intern_names(
                            intern_names(
                                intern_names(
                                    intern_names(
                                        intern_names(intern_names(old(it)@, "+"@), "-"@),
                                        "*"@,
                                    ),
                                    "/"@,
                                ),
                                "<"@,
                            ),
                            ">"@,
                        ),
                        "<="@,
                    ),
                    ">="@,
                ),
                "eq"@,
            ),
            p.names_in(final(it)@),
    {
        let add = it.intern("+");
        let ghost t1 = it@;
        let sub = it.intern("-");
        let ghost t2 = it@;
        let mul = it.intern("*");
        let ghost t3 = it@;
        let div = it.intern("/");
        let ghost t4 = it@;
        let lt = it.intern("<");
        let ghost t5 = it@;
        let gt = it.intern(">");
        let ghost t6 = it@;
        let lte = it.intern("<=");
        let ghost t7 = it@;
        let gte = it.intern(">=");
        let ghost t8 = it@;
        let eq = it.intern("eq");
        proof {
            lemma_intern_keeps(t1, "-"@, add.0 as int);
            assert(t2[add.0 as int] == "+"@);
            lemma_intern_keeps(t2, "*"@, add.0 as int);
            lemma_intern_keeps(t2, "*"@, sub.0 as int);
            assert(t3[add.0 as int] == "+"@ && t3[sub.0 as int] == "-"@);
            lemma_intern_keeps(t3, "/"@, add.0 as int);
            lemma_intern_keeps(t3, "/"@, sub.0 as int);
            lemma_intern_keeps(t3, "/"@, mul.0 as int);
            assert(t4[add.0 as int] == "+"@ && t4[sub.0 as int] == "-"@ && t4[mul.0 as int]
                == "*"@);
            lemma_intern_keeps(t4, "<"@, add.0 as int);
            lemma_intern_keeps(t4, "<"@, sub.0 as int);
            lemma_intern_keeps(t4, "<"@, mul.0 as int);
            lemma_intern_keeps(t4, "<"@, div.0 as int);
            assert(t5[add.0 as int] == "+"@ && t5[sub.0 as int] == "-"@ && t5[mul.0 as int]
                == "*"@ && t5[div.0 as int] == "/"@);
            lemma_intern_keeps(t5, ">"@, add.0 as int);
            lemma_intern_keeps(t5, ">"@, sub.0 as int);
            lemma_intern_keeps(t5, ">"@, mul.0 as int);
            lemma_intern_keeps(t5, ">"@, div.0 as int);
            lemma_intern_keeps(t5, ">"@, lt.0 as int);
            assert(t6[add.0 as int] == "+"@ && t6[sub.0 as int] == "-"@ && t6[mul.0 as int]
                == "*"@ && t6[div.0 as int] == "/"@ && t6[lt.0 as int] == "<"@);
            lemma_intern_keeps(t6, "<="@, add.0 as int);
            lemma_intern_keeps(t6, "<="@, sub.0 as int);
            lemma_intern_keeps(t6, "<="@, mul.0 as int);
            lemma_intern_keeps(t6, "<="@, div.0 as int);
            lemma_intern_keeps(t6, "<="@, lt.0 as int);
            lemma_intern_keeps(t6, "<="@, gt.0 as int);
            assert(t7[add.0 as int] == "+"@ && t7[sub.0 as int] == "-"@ && t7[mul.0 as int]
                == "*"@ && t7[div.0 as int] == "/"@ && t7[lt.0 as int] == "<"@ && t7[gt.0 as int]
                == ">"@);
            lemma_intern_keeps(t7, ">="@, add.0 as int);
            lemma_intern_keeps(t7, ">="@, sub.0 as int);
            lemma_intern_keeps(t7, ">="@, mul.0 as int);
            lemma_intern_keeps(t7, ">="@, div.0 as int);
            lemma_intern_keeps(t7, ">="@, lt.0 as int);
            lemma_intern_keeps(t7, ">="@, gt.0 as int);
            lemma_intern_keeps(t7, ">="@, lte.0 as int);
            assert(t8[add.0 as int] == "+"@ && t8[sub.0 as int] == "-"@ && t8[mul.0 as int]
                == "*"@ && t8[div.0 as int] == "/"@ && t8[lt.0 as int] == "<"@ && t8[gt.0 as int]
                == ">"@ && t8[lte.0 as int] == "<="@);
            lemma_intern_keeps(t8, "eq"@, add.0 as int);
            lemma_intern_keeps(t8, "eq"@, sub.0 as int);
            lemma_intern_keeps(t8, "eq"@, mul.0 as int);
            lemma_intern_keeps(t8, "eq"@, div.0 as int);
            lemma_intern_keeps(t8, "eq"@, lt.0 as int);
            lemma_intern_keeps(t8, "eq"@, gt.0 as int);
            lemma_intern_keeps(t8, "eq"@, lte.0 as int);
            lemma_intern_keeps(t8, "eq"@, gte.0 as int);
        }
        Primitives { add, sub, mul, div, lt, gt, lte, gte, eq }
    }

    /// The opcode of the primitive named by `sym`, if it names one.
    pub fn get(&self, sym: Ident) -> (r: Option<OpCode>)
        ensures
            r == self.lookup(sym),
    {
        if sym.0 == self.add.0 {
            Some(OpCode::Add)
        } else if sym.0 == self.sub.0 {
            Some(OpCode::Sub)
        } else if sym.0 == self.mul.0 {
            Some(OpCode::Mul)
        } else if sym.0 == self.div.0 {
            Some(OpCode::Div)
        } else if sym.0 == self.lt.0 {
            Some(OpCode::Lt)
        } else if sym.0 == self.gt.0 {
            Some(OpCode::Gt)
        } else if sym.0 == self.lte.0 {
            Some(OpCode::Lte)
        } else if sym.0 == self.gte.0 {
            Some(OpCode::Gte)
        } else if sym.0 == self.eq.0 {
            Some(OpCode::Eq)
        } else {
            None
        }
    }
}

/// The trees of the forms `items[from..upto]`, or the first error among them.
pub open spec fn parse_items(
    items: Seq<SexpView>,
    from: int,
    upto: int,
    sp: Specials,
    pr: Primitives,
) -> Result<Seq<ExprView>, ParseError>
    decreases items, upto,
{
    if upto <= from || from < 0 || upto > items.len() {
        Ok(Seq::empty())
    } else {
        match parse_items(items, from, upto - 1, sp, pr) {
            Err(e) => Err(e),
            Ok(init) => match parse_spec(items[upto - 1], sp, pr) {
                Err(e) => Err(e),
                Ok(x) => Ok(init.push(x)),
            },
        }
    }
}

/// The trees of the first `n` key-value pairs, or the first error among them.
pub open spec fn parse_pairs(
    pairs: Seq<(SexpView, SexpView)>,
    n: int,
    sp: Specials,
    pr: Primitives,
) -> Result<Seq<(ExprView, ExprView)>, ParseError>
    decreases pairs, n,
{
    if n <= 0 || n > pairs.len() {
        Ok(Seq::empty())
    } else {
        match parse_pairs(pairs, n - 1, sp, pr) {
            Err(e) => Err(e),
            Ok(init) => match parse_spec(pairs[n - 1].0, sp, pr) {
                Err(e) => Err(e),
                Ok(k) => match parse_spec(pairs[n - 1].1, sp, pr) {
                    Err(e) => Err(e),
                    Ok(v) => Ok(init.push((k, v))),
                },
            },
        }
    }
}

/// The first `n` bindings of a `let`: names at the even places, initialisers
/// at the odd ones.
pub open spec fn parse_bindings(
    b: Seq<SexpView>,
    n: int,
    sp: Specials,
    pr: Primitives,
) -> Result<Seq<(Ident, ExprView)>, ParseError>
    decreases b, n,
{
    if n <= 0 || 2 * n > b.len() {
        Ok(Seq::empty())
    } else {
        match parse_bindings(b, n - 1, sp, pr) {
            Err(e) => Err(e),
            Ok(init) => match b[2 * (n - 1)] {
                SexpView::Ident(sym) => match parse_spec(b[2 * (n - 1) + 1], sp, pr) {
                    Err(e) => Err(e),
                    Ok(x) => Ok(init.push((sym, x))),
                },
                _ => Err(ParseError::LetBindingsAreNotSymbols),
            },
        }
    }
}

/// The first `n` cases of a `cond`, whose tests and branches follow the head
/// in turn.
pub open spec fn parse_cases(
    items: Seq<SexpView>,
    n: int,
    sp: Specials,
    pr: Primitives,
) -> Result<Seq<(ExprView, ExprView)>, ParseError>
    decreases items, n,
{
    if n <= 0 || 2 * n + 1 > items.len() {
        Ok(Seq::empty())
    } else {
        match parse_cases(items, n - 1, sp, pr) {
            Err(e) => Err(e),
            Ok(init) => match parse_spec(items[2 * (n - 1) + 1], sp, pr) {
                Err(e) => Err(e),
                Ok(c) => match parse_spec(items[2 * (n - 1) + 2], sp, pr) {
                    Err(e) => Err(e),
                    Ok(x) => Ok(init.push((c, x))),
                },
            },
        }
    }
}

/// The first `n` parameters of a `fn`, each of which must be a name.
pub open spec fn parse_params(b: Seq<SexpView>, n: int) -> Result<Seq<Ident>, ParseError>
    decreases n,
{
    if n <= 0 || n > b.len() {
        Ok(Seq::empty())
    } else {
        match parse_params(b, n - 1) {
            Err(e) => Err(e),
            Ok(init) => match b[n - 1] {
                SexpView::Ident(sym) => Ok(init.push(sym)),
                _ => Err(ParseError::FnBindingsAreNotSymbols),
            },
        }
    }
}

/// The tree of a list form, by its head.
pub open spec fn parse_form(items: Seq<SexpView>, sp: Specials, pr: Primitives) -> Result<
    ExprView,
    ParseError,
>
    decreases items, items.len() + 1,
{
    let len = items.len() as int;
    if len == 0 {
        Err(ParseError::EmptyList)
    } else {
        match items[0] {
            SexpView::Ident(sym) => {
                if sym == sp._if {
                    if len != 4 {
                        Err(ParseError::MalformedIf)
                    } else {
                        match parse_spec(items[1], sp, pr) {
                            Err(e) => Err(e),
                            Ok(c) => match parse_spec(items[2], sp, pr) {
                                Err(e) => Err(e),
                                Ok(a) => match parse_spec(items[3], sp, pr) {
                                    Err(e) => Err(e),
                                    Ok(b) => Ok(
                                        ExprView::If {
                                            condition: Box::new(c),
                                            resultant: Box::new(a),
                                            else_branch: Box::new(b),
                                        },
                                    ),
                                },
                            },
                        }
                    }
                } else if sym == sp._let {
                    if len < 3 {
                        Err(ParseError::MalformedLet)
                    } else {
                        match items[1] {
                            SexpView::Vector(b) => {
                                if b.len() % 2 != 0 {
                                    Err(ParseError::UnbalancedLetBindings)
                                } else {
                                    match parse_bindings(b, b.len() as int / 2, sp, pr) {
                                        Err(e) => Err(e),
                                        Ok(bs) => match parse_items(items, 2, len, sp, pr) {
                                            Err(e) => Err(e),
                                            Ok(body) => Ok(
                                                ExprView::Let {
                                                    bindings: bs,
                                                    body: Box::new(ExprView::Do(body)),
                                                },
                                            ),
                                        },
                                    }
                                }
                            },
                            _ => Err(ParseError::LetBindingsNotInVector),
                        }
                    }
                } else if sym == sp._fn {
                    if len < 2 {
                        Err(ParseError::FnBindingsNotInVector)
                    } else {
                        match items[1] {
                            SexpView::Vector(b) => match parse_params(b, b.len() as int) {
                                Err(e) => Err(e),
                                Ok(ps) => match parse_items(items, 2, len, sp, pr) {
                                    Err(e) => Err(e),
                                    Ok(body) => Ok(
                                        ExprView::Fn {
                                            bindings: ps,
                                            body: Box::new(ExprView::Do(body)),
                                        },
                                    ),
                                },
                            },
                            _ => Err(ParseError::FnBindingsNotInVector),
                        }
                    }
                } else if sym == sp._cond {
                    if (len - 1) % 2 != 0 {
                        Err(ParseError::UnbalancedCond)
                    } else {
                        match parse_cases(items, (len - 1) / 2, sp, pr) {
                            Err(e) => Err(e),
                            Ok(cases) => Ok(ExprView::Cond(cases)),
                        }
                    }
                } else if sym == sp._do {
                    match parse_items(items, 1, len, sp, pr) {
                        Err(e) => Err(e),
                        Ok(body) => Ok(ExprView::Do(body)),
                    }
                } else if sym == sp._set {
                    if len != 3 {
                        Err(ParseError::MalformedSet)
                    } else {
                        match items[1] {
                            SexpView::Ident(target) => match parse_spec(items[2], sp, pr) {
                                Err(e) => Err(e),
                                Ok(v) => Ok(ExprView::Assign(target, Box::new(v))),
                            },
                            _ => Err(ParseError::MalformedSet),
                        }
                    }
                } else if sym == sp._ret {
                    if len != 2 {
                        Err(ParseError::MalformedRet)
                    } else {
                        match parse_spec(items[1], sp, pr) {
                            Err(e) => Err(e),
                            Ok(v) => Ok(ExprView::Ret(Box::new(v))),
                        }
                    }
                } else if pr.lookup(sym) is Some {
                    if len != 3 {
                        Err(ParseError::PrimOpWrongArity)
                    } else {
                        match parse_spec(items[1], sp, pr) {
                            Err(e) => Err(e),
                            Ok(l) => match parse_spec(items[2], sp, pr) {
                                Err(e) => Err(e),
                                Ok(r) => Ok(
                                    ExprView::PrimOp {
                                        op: sym,
                                        left: Box::new(l),
                                        right: Box::new(r),
                                    },
                                ),
                            },
                        }
                    }
                } else {
                    match parse_items(items, 1, len, sp, pr) {
                        Err(e) => Err(e),
                        Ok(args) => Ok(
                            ExprView::Apply { _fn: Box::new(ExprView::Ident(sym)), args },
                        ),
                    }
                }
            },
            head => match parse_spec(head, sp, pr) {
                Err(e) => Err(e),
                Ok(callee) => match parse_items(items, 1, len, sp, pr) {
                    Err(e) => Err(e),
                    Ok(args) => Ok(ExprView::Apply { _fn: Box::new(callee), args }),
                },
            },
        }
    }
}

/// The syntax tree of an S-expression, or the first structural violation in
/// it. Numbers, names and keywords stand for themselves; vector and map
/// literals descend into their items; a list is a special form, a primitive
/// operation or an application, by its head.
pub open spec fn parse_spec(sexp: SexpView, sp: Specials, pr: Primitives) -> Result<
    ExprView,
    ParseError,
>
    decreases sexp, 0int,
{
    match sexp {
        SexpView::Number(n) => Ok(ExprView::NumLiteral(n)),
        SexpView::Ident(i) => Ok(ExprView::Ident(i)),
        SexpView::Keyword(k) => Ok(ExprView::Keyword(k)),
        SexpView::Vector(items) => match parse_items(items, 0, items.len() as int, sp, pr) {
            Err(e) => Err(e),
            Ok(es) => Ok(ExprView::VectorLiteral(es)),
        },
        SexpView::MapLit(pairs) => match parse_pairs(pairs, pairs.len() as int, sp, pr) {
            Err(e) => Err(e),
            Ok(es) => Ok(ExprView::MapLiteral(es)),
        },
        SexpView::List(items) => parse_form(items, sp, pr),
    }
}

/// An error among the first forms is the error of the whole run.
pub proof fn lemma_parse_items_err(
    items: Seq<SexpView>,
    from: int,
    k: int,
    upto: int,
    sp: Specials,
    pr: Primitives,
)
    requires
        0 <= from <= k <= upto <= items.len(),
        parse_items(items, from, k, sp, pr) is Err,
    ensures
        parse_items(items, from, upto, sp, pr) == parse_items(items, from, k, sp, pr),
    decreases upto - k,
{
    if k < upto {
        lemma_parse_items_err(items, from, k, upto - 1, sp, pr);
    }
}

pub proof fn lemma_parse_pairs_err(
    pairs: Seq<(SexpView, SexpView)>,
    k: int,
    n: int,
    sp: Specials,
    pr: Primitives,
)
    requires
        0 <= k <= n <= pairs.len(),
        parse_pairs(pairs, k, sp, pr) is Err,
    ensures
        parse_pairs(pairs, n, sp, pr) == parse_pairs(pairs, k, sp, pr),
    decreases n - k,
{
    if k < n {
        lemma_parse_pairs_err(pairs, k, n - 1, sp, pr);
    }
}

pub proof fn lemma_parse_bindings_err(
    b: Seq<SexpView>,
    k: int,
    n: int,
    sp: Specials,
    pr: Primitives,
)
    requires
        0 <= k <= n,
        2 * n <= b.len(),
        parse_bindings(b, k, sp, pr) is Err,
    ensures
        parse_bindings(b, n, sp, pr) == parse_bindings(b, k, sp, pr),
    decreases n - k,
{
    if k < n {
        lemma_parse_bindings_err(b, k, n - 1, sp, pr);
    }
}

pub proof fn lemma_parse_cases_err(
    items: Seq<SexpView>,
    k: int,
    n: int,
    sp: Specials,
    pr: Primitives,
)
    requires
        0 <= k <= n,
        2 * n + 1 <= items.len(),
        parse_cases(items, k, sp, pr) is Err,
    ensures
        parse_cases(items, n, sp, pr) == parse_cases(items, k, sp, pr),
    decreases n - k,
{
    if k < n {
        lemma_parse_cases_err(items, k, n - 1, sp, pr);
    }
}

pub proof fn lemma_parse_params_err(b: Seq<SexpView>, k: int, n: int)
    requires
        0 <= k <= n <= b.len(),
        parse_params(b, k) is Err,
    ensures
        parse_params(b, n) == parse_params(b, k),
    decreases n - k,
{
    if k < n {
        lemma_parse_params_err(b, k, n - 1);
    }
}

/// What a parse returns, seen through the views of the trees.
pub open spec fn parsed(r: Result<Expr, ParseError>) -> Result<ExprView, ParseError> {
    match r {
        Ok(e) => Ok(e@),
        Err(e) => Err(e),
    }
}

pub open spec fn parsed_list(r: Result<Vec<Expr>, ParseError>) -> Result<
    Seq<ExprView>,
    ParseError,
> {
    match r {
        Ok(es) => Ok(expr_views(es@)),
        Err(e) => Err(e),
    }
}

/// Parses the forms `list[from..]` in turn.
pub fn parse_list(list: &Vec<Sexp>, from: usize, specials: &Specials, primitives: &Primitives) -> (r:
    Result<Vec<Expr>, ParseError>)
    requires
        from <= list.len(),
    ensures
        parsed_list(r) == parse_items(
            sexp_views(list@),
            from as int,
            list.len() as int,
            *specials,
            *primitives,
        ),
    decreases list,
{
    let ghost views = sexp_views(list@);
    let mut out: Vec<Expr> = Vec::new();
    let mut i: usize = from;
    assert(expr_views(out@) =~= Seq::<ExprView>::empty());
    while i < list.len()
        invariant
            from <= i <= list.len(),
            views == sexp_views(list@),
            parse_items(views, from as int, i as int, *specials, *primitives) == Ok::<
                Seq<ExprView>,
                ParseError,
            >(expr_views(out@)),
        decreases list.len() - i,
    {
        let ghost before = expr_views(out@);
        match parse(&list[i], specials, primitives) {
            Ok(e) => {
                out.push(e);
                assert(expr_views(out@) =~= before.push(e@));
            },
            Err(err) => {
                proof {
                    lemma_parse_items_err(
                        views,
                        from as int,
                        i + 1,
                        list.len() as int,
                        *specials,
                        *primitives,
                    );
                }
                return Err(err);
            },
        }
        i += 1;
    }
    Ok(out)
}

fn parse_pair_list(pairs: &Vec<(Sexp, Sexp)>, specials: &Specials, primitives: &Primitives) -> (r:
    Result<Vec<(Expr, Expr)>, ParseError>)
    ensures
        match r {
            Ok(es) => parse_pairs(
                sexp_pair_views(pairs@),
                pairs.len() as int,
                *specials,
                *primitives,
            ) == Ok::<Seq<(ExprView, ExprView)>, ParseError>(expr_pair_views(es@)),
            Err(e) => parse_pairs(
                sexp_pair_views(pairs@),
                pairs.len() as int,
                *specials,
                *primitives,
            ) == Err::<Seq<(ExprView, ExprView)>, ParseError>(e),
        },
    decreases pairs,
{
    let ghost views = sexp_pair_views(pairs@);
    let mut out: Vec<(Expr, Expr)> = Vec::new();
    let mut i: usize = 0;
    assert(expr_pair_views(out@) =~= Seq::<(ExprView, ExprView)>::empty());
    while i < pairs.len()
        invariant
            i <= pairs.len(),
            views == sexp_pair_views(pairs@),
            parse_pairs(views, i as int, *specials, *primitives) == Ok::<
                Seq<(ExprView, ExprView)>,
                ParseError,
            >(expr_pair_views(out@)),
        decreases pairs.len() - i,
    {
        let ghost before = expr_pair_views(out@);
        let key = match parse(&pairs[i].0, specials, primitives) {
            Ok(k) => k,
            Err(err) => {
                proof {
                    lemma_parse_pairs_err(views, i + 1, pairs.len() as int, *specials, *primitives);
                }
                return Err(err);
            },
        };
        let value = match parse(&pairs[i].1, specials, primitives) {
            Ok(v) => v,
            Err(err) => {
                proof {
                    lemma_parse_pairs_err(views, i + 1, pairs.len() as int, *specials, *primitives);
                }
                return Err(err);
            },
        };
        let ghost kv = (key@, value@);
        out.push((key, value));
        assert(expr_pair_views(out@) =~= before.push(kv));
        i += 1;
    }
    Ok(out)
}

fn parse_let_bindings(b: &Vec<Sexp>, specials: &Specials, primitives: &Primitives) -> (r: Result<
    Vec<(Ident, Expr)>,
    ParseError,
>)
    requires
        b.len() % 2 == 0,
    ensures
        match r {
            Ok(bs) => parse_bindings(
                sexp_views(b@),
                b.len() as int / 2,
                *specials,
                *primitives,
            ) == Ok::<Seq<(Ident, ExprView)>, ParseError>(binding_views(bs@)),
            Err(e) => parse_bindings(
                sexp_views(b@),
                b.len() as int / 2,
                *specials,
                *primitives,
            ) == Err::<Seq<(Ident, ExprView)>, ParseError>(e),
        },
    decreases b,
{
    let ghost views = sexp_views(b@);
    let n = b.len() / 2;
    let mut out: Vec<(Ident, Expr)> = Vec::new();
    let mut i: usize = 0;
    assert(binding_views(out@) =~= Seq::<(Ident, ExprView)>::empty());
    while i < n
        invariant
            i <= n,
            n == b.len() / 2,
            b.len() % 2 == 0,
            views == sexp_views(b@),
            parse_bindings(views, i as int, *specials, *primitives) == Ok::<
                Seq<(Ident, ExprView)>,
                ParseError,
            >(binding_views(out@)),
        decreases n - i,
    {
        let ghost before = binding_views(out@);
        proof {
            lemma_sexp_view(&b[2 * i as int]);
        }
        match &b[2 * i] {
            Sexp::Ident(sym) => {
                match parse(&b[2 * i + 1], specials, primitives) {
                    Ok(e) => {
                        let ghost entry = (*sym, e@);
                        out.push((*sym, e));
                        assert(binding_views(out@) =~= before.push(entry));
                    },
                    Err(err) => {
                        proof {
                            lemma_parse_bindings_err(
                                views,
                                i + 1,
                                n as int,
                                *specials,
                                *primitives,
                            );
                        }
                        return Err(err);
                    },
                }
            },
            _ => {
                proof {
                    lemma_parse_bindings_err(views, i + 1, n as int, *specials, *primitives);
                }
                return Err(ParseError::LetBindingsAreNotSymbols);
            },
        }
        i += 1;
    }
    Ok(out)
}

fn parse_cond_cases(items: &Vec<Sexp>, specials: &Specials, primitives: &Primitives) -> (r: Result<
    Vec<(Expr, Expr)>,
    ParseError,
>)
    requires
        items.len() >= 1,
        (items.len() - 1) % 2 == 0,
    ensures
        match r {
            Ok(cs) => parse_cases(
                sexp_views(items@),
                (items.len() - 1) / 2,
                *specials,
                *primitives,
            ) == Ok::<Seq<(ExprView, ExprView)>, ParseError>(expr_pair_views(cs@)),
            Err(e) => parse_cases(
                sexp_views(items@),
                (items.len() - 1) / 2,
                *specials,
                *primitives,
            ) == Err::<Seq<(ExprView, ExprView)>, ParseError>(e),
        },
    decreases items,
{
    let ghost views = sexp_views(items@);
    let n = (items.len() - 1) / 2;
    let mut out: Vec<(Expr, Expr)> = Vec::new();
    let mut i: usize = 0;
    assert(expr_pair_views(out@) =~= Seq::<(ExprView, ExprView)>::empty());
    while i < n
        invariant
            i <= n,
            n == (items.len() - 1) / 2,
            (items.len() - 1) % 2 == 0,
            items.len() >= 1,
            views == sexp_views(items@),
            parse_cases(views, i as int, *specials, *primitives) == Ok::<
                Seq<(ExprView, ExprView)>,
                ParseError,
            >(expr_pair_views(out@)),
        decreases n - i,
    {
        let ghost before = expr_pair_views(out@);
        let case = match parse(&items[2 * i + 1], specials, primitives) {
            Ok(c) => c,
            Err(err) => {
                proof {
                    lemma_parse_cases_err(views, i + 1, n as int, *specials, *primitives);
                }
                return Err(err);
            },
        };
        let branch = match parse(&items[2 * i + 2], specials, primitives) {
            Ok(x) => x,
            Err(err) => {
                proof {
                    lemma_parse_cases_err(views, i + 1, n as int, *specials, *primitives);
                }
                return Err(err);
            },
        };
        let ghost entry = (case@, branch@);
        out.push((case, branch));
        assert(expr_pair_views(out@) =~= before.push(entry));
        i += 1;
    }
    Ok(out)
}

fn parse_fn_params(b: &Vec<Sexp>) -> (r: Result<Vec<Ident>, ParseError>)
    ensures
        match r {
            Ok(ps) => parse_params(sexp_views(b@), b.len() as int) == Ok::<
                Seq<Ident>,
                ParseError,
            >(ps@),
            Err(e) => parse_params(sexp_views(b@), b.len() as int) == Err::<
                Seq<Ident>,
                ParseError,
            >(e),
        },
{
    let ghost views = sexp_views(b@);
    let mut out: Vec<Ident> = Vec::new();
    let mut i: usize = 0;
    while i < b.len()
        invariant
            i <= b.len(),
            views == sexp_views(b@),
            parse_params(views, i as int) == Ok::<Seq<Ident>, ParseError>(out@),
        decreases b.len() - i,
    {
        proof {
            lemma_sexp_view(&b[i as int]);
        }
        match &b[i] {
            Sexp::Ident(sym) => {
                out.push(*sym);
            },
            _ => {
                proof {
                    lemma_parse_params_err(views, i + 1, b.len() as int);
                }
                return Err(ParseError::FnBindingsAreNotSymbols);
            },
        }
        i += 1;
    }
    Ok(out)
}

/// Lowers `sexp` into its syntax tree, or reports the first structural
/// violation met.
pub fn parse(sexp: &Sexp, specials: &Specials, primitives: &Primitives) -> (r: Result<
    Expr,
    ParseError,
>)
    ensures
        parsed(r) == parse_spec(sexp@, *specials, *primitives),
    decreases sexp,
{
    proof {
        lemma_sexp_view(sexp);
    }
    match sexp {
        Sexp::Number(num) => Ok(Expr::NumLiteral(*num)),
        Sexp::Ident(sym) => Ok(Expr::Ident(*sym)),
        Sexp::Keyword(sym) => Ok(Expr::Keyword(*sym)),
        Sexp::Vector(items) => {
            let es = parse_list(items, 0, specials, primitives)?;
            let e = Expr::VectorLiteral(es);
            proof {
                lemma_expr_view(&e);
            }
            Ok(e)
        },
        Sexp::MapLit(pairs) => {
            let es = parse_pair_list(pairs, specials, primitives)?;
            let e = Expr::MapLiteral(es);
            proof {
                lemma_expr_view(&e);
            }
            Ok(e)
        },
        Sexp::List(items) => {
            let len = items.len();
            if len == 0 {
                return Err(ParseError::EmptyList);
            }
            proof {
                lemma_sexp_view(&items[0]);
            }
            match &items[0] {
                Sexp::Ident(head) => {
                    let sym = *head;
                    if sym.0 == specials._if.0 {
                        if len != 4 {
                            return Err(ParseError::MalformedIf);
                        }
                        let c = parse(&items[1], specials, primitives)?;
                        let a = parse(&items[2], specials, primitives)?;
                        let b = parse(&items[3], specials, primitives)?;
                        Ok(
                            Expr::If {
                                condition: Box::new(c),
                                resultant: Box::new(a),
                                else_branch: Box::new(b),
                            },
                        )
                    } else if sym.0 == specials._let.0 {
                        if len < 3 {
                            return Err(ParseError::MalformedLet);
                        }
                        proof {
                            lemma_sexp_view(&items[1]);
                        }
                        match &items[1] {
                            Sexp::Vector(bindings) => {
                                if bindings.len() % 2 != 0 {
                                    return Err(ParseError::UnbalancedLetBindings);
                                }
                                let bs = parse_let_bindings(bindings, specials, primitives)?;
                                let body = parse_list(items, 2, specials, primitives)?;
                                let inner = Expr::Do(body);
                                proof {
                                    lemma_expr_view(&inner);
                                }
                                let e = Expr::Let { bindings: bs, body: Box::new(inner) };
                                proof {
                                    lemma_expr_view(&e);
                                }
                                Ok(e)
                            },
                            _ => Err(ParseError::LetBindingsNotInVector),
                        }
                    } else if sym.0 == specials._fn.0 {
                        if len < 2 {
                            return Err(ParseError::FnBindingsNotInVector);
                        }
                        proof {
                            lemma_sexp_view(&items[1]);
                        }
                        match &items[1] {
                            Sexp::Vector(bindings) => {
                                let ps = parse_fn_params(bindings)?;
                                let body = parse_list(items, 2, specials, primitives)?;
                                let inner = Expr::Do(body);
                                proof {
                                    lemma_expr_view(&inner);
                                }
                                Ok(Expr::Fn { bindings: ps, body: Box::new(inner) })
                            },
                            _ => Err(ParseError::FnBindingsNotInVector),
                        }
                    } else if sym.0 == specials._cond.0 {
                        if (len - 1) % 2 != 0 {
                            return Err(ParseError::UnbalancedCond);
                        }
                        let cases = parse_cond_cases(items, specials, primitives)?;
                        let e = Expr::Cond(cases);
                        proof {
                            lemma_expr_view(&e);
                        }
                        Ok(e)
                    } else if sym.0 == specials._do.0 {
                        let body = parse_list(items, 1, specials, primitives)?;
                        let e = Expr::Do(body);
                        proof {
                            lemma_expr_view(&e);
                        }
                        Ok(e)
                    } else if sym.0 == specials._set.0 {
                        if len != 3 {
                            return Err(ParseError::MalformedSet);
                        }
                        proof {
                            lemma_sexp_view(&items[1]);
                        }
                        match &items[1] {
                            Sexp::Ident(target) => {
                                let v = parse(&items[2], specials, primitives)?;
                                Ok(Expr::Assign(*target, Box::new(v)))
                            },
                            _ => Err(ParseError::MalformedSet),
                        }
                    } else if sym.0 == specials._ret.0 {
                        if len != 2 {
                            return Err(ParseError::MalformedRet);
                        }
                        let v = parse(&items[1], specials, primitives)?;
                        Ok(Expr::Ret(Box::new(v)))
                    } else if primitives.get(sym).is_some() {
                        if len != 3 {
                            return Err(ParseError::PrimOpWrongArity);
                        }
                        let l = parse(&items[1], specials, primitives)?;
                        let r = parse(&items[2], specials, primitives)?;
                        Ok(Expr::PrimOp { op: sym, left: Box::new(l), right: Box::new(r) })
                    } else {
                        let args = parse_list(items, 1, specials, primitives)?;
                        let e = Expr::Apply { _fn: Box::new(Expr::Ident(sym)), args };
                        proof {
                        lemma_expr_view(&e);
                    }
                        Ok(e)
                    }
                },
                _ => {
                    let callee = parse(&items[0], specials, primitives)?;
                    let args = parse_list(items, 1, specials, primitives)?;
                    let e = Expr::Apply { _fn: Box::new(callee), args };
                    proof {
                        lemma_expr_view(&e);
                    }
                    Ok(e)
                },
            }
        },
    }
}

} // verus!
