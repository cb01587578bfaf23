//! S-expressions: what the reader makes of source text.

use vstd::prelude::*;
use super::idents::Ident;

verus! {

/// One form of source text.
pub enum Sexp {
    /// `( ... )`
    List(Vec<Sexp>),
    /// `[ ... ]`
    Vector(Vec<Sexp>),
    /// `{ key value ... }`
    MapLit(Vec<(Sexp, Sexp)>),
    /// A name.
    Ident(Ident),
    /// `:name`
    Keyword(Ident),
    /// A number, by the identifier under which its digits were interned.
    Number(Ident),
}

/// The mathematical form of an S-expression.
pub ghost enum SexpView {
    List(Seq<SexpView>),
    Vector(Seq<SexpView>),
    MapLit(Seq<(SexpView, SexpView)>),
    Ident(Ident),
    Keyword(Ident),
    Number(Ident),
}

impl View for Sexp {
    type V = SexpView;

    open spec fn view(&self) -> SexpView
        decreases self, 0int,
    {
        match self {
            Sexp::List(items) => SexpView::List(view_prefix(*items, items.len() as int)),
            Sexp::Vector(items) => SexpView::Vector(view_prefix(*items, items.len() as int)),
            Sexp::MapLit(items) => SexpView::MapLit(view_pair_prefix(*items, items.len() as int)),
            Sexp::Ident(id) => SexpView::Ident(*id),
            Sexp::Keyword(id) => SexpView::Keyword(*id),
            Sexp::Number(id) => SexpView::Number(*id),
        }
    }
}

/// The views of the first `n` of `items`.
pub open spec fn view_prefix(items: Vec<Sexp>, n: int) -> Seq<SexpView>
    decreases items, n,
{
    if n <= 0 || n > items.len() {
        Seq::empty()
    } else {
        view_prefix(items, n - 1).push(items[n - 1].view())
    }
}

/// The views of the first `n` pairs of `items`.
pub open spec fn view_pair_prefix(items: Vec<(Sexp, Sexp)>, n: int) -> Seq<(SexpView, SexpView)>
    decreases items, n,
{
    if n <= 0 || n > items.len() {
        Seq::empty()
    } else {
        view_pair_prefix(items, n - 1).push((items[n - 1].0.view(), items[n - 1].1.view()))
    }
}

/// The views of a run of S-expressions.
pub open spec fn sexp_views(items: Seq<Sexp>) -> Seq<SexpView> {
    Seq::new(items.len(), |i: int| items[i]@)
}

/// The views of a run of pairs of S-expressions.
pub open spec fn sexp_pair_views(items: Seq<(Sexp, Sexp)>) -> Seq<(SexpView, SexpView)> {
    Seq::new(items.len(), |i: int| (items[i].0@, items[i].1@))
}

pub proof fn lemma_view_prefix(items: Vec<Sexp>, n: int)
    requires
        0 <= n <= items.len(),
    ensures
        view_prefix(items, n) == sexp_views(items@.take(n)),
    decreases n,
{
    if n > 0 {
        lemma_view_prefix(items, n - 1);
        let a = view_prefix(items, n);
        let b = sexp_views(items@.take(n));
        assert(a == view_prefix(items, n - 1).push(items[n - 1].view()));
        assert(a.len() == n);
        assert(b.len() == n);
        assert forall|i: int| 0 <= i < n implies a[i] == b[i] by {
            if i < n - 1 {
                assert(a[i] == view_prefix(items, n - 1)[i]);
                assert(items@.take(n - 1)[i] == items@[i]);
                assert(sexp_views(items@.take(n - 1))[i] == items@[i]@);
            } else {
                assert(a[i] == items[n - 1].view());
            }
            assert(items@.take(n)[i] == items@[i]);
        }
        assert(a =~= b);
    } else {
        assert(view_prefix(items, n) =~= sexp_views(items@.take(n)));
    }
}

pub proof fn lemma_view_pair_prefix(items: Vec<(Sexp, Sexp)>, n: int)
    requires
        0 <= n <= items.len(),
    ensures
        view_pair_prefix(items, n) == sexp_pair_views(items@.take(n)),
    decreases n,
{
    if n > 0 {
        lemma_view_pair_prefix(items, n - 1);
        let a = view_pair_prefix(items, n);
        let b = sexp_pair_views(items@.take(n));
        assert(a == view_pair_prefix(items, n - 1).push((items[n - 1].0.view(), items[n - 1].1.view())));
        assert(a.len() == n);
        assert(b.len() == n);
        assert forall|i: int| 0 <= i < n implies a[i] == b[i] by {
            if i < n - 1 {
                assert(a[i] == view_pair_prefix(items, n - 1)[i]);
                assert(items@.take(n - 1)[i] == items@[i]);
                assert(sexp_pair_views(items@.take(n - 1))[i] == b[i]);
            } else {
                assert(a[i] == (items[n - 1].0.view(), items[n - 1].1.view()));
            }
            assert(items@.take(n)[i] == items@[i]);
        }
        assert(a =~= b);
    } else {
        assert(view_pair_prefix(items, n) =~= sexp_pair_views(items@.take(n)));
    }
}

/// The view of a form is built from the views of its items.
pub proof fn lemma_sexp_view(sexp: &Sexp)
    ensures
        match sexp {
            Sexp::List(items) => sexp@ == SexpView::List(sexp_views(items@)),
            Sexp::Vector(items) => sexp@ == SexpView::Vector(sexp_views(items@)),
            Sexp::MapLit(items) => sexp@ == SexpView::MapLit(sexp_pair_views(items@)),
            Sexp::Ident(id) => sexp@ == SexpView::Ident(*id),
            Sexp::Keyword(id) => sexp@ == SexpView::Keyword(*id),
            Sexp::Number(id) => sexp@ == SexpView::Number(*id),
        },
{
    match sexp {
        Sexp::List(items) => {
            lemma_view_prefix(*items, items.len() as int);
            assert(items@.take(items.len() as int) =~= items@);
        },
        Sexp::Vector(items) => {
            lemma_view_prefix(*items, items.len() as int);
            assert(items@.take(items.len() as int) =~= items@);
        },
        Sexp::MapLit(items) => {
            lemma_view_pair_prefix(*items, items.len() as int);
            assert(items@.take(items.len() as int) =~= items@);
        },
        _ => {},
    }
}

impl Sexp {
    pub fn is_list(&self) -> (b: bool)
        ensures
            b == (self is List),
    {
        match self {
            Sexp::List(..) => true,
            _ => false,
        }
    }

    pub fn is_symbol(&self) -> (b: bool)
        ensures
            b == (self is Ident),
    {
        match self {
            Sexp::Ident(..) => true,
            _ => false,
        }
    }

    pub fn is_number(&self) -> (b: bool)
        ensures
            b == (self is Number),
    {
        match self {
            Sexp::Number(..) => true,
            _ => false,
        }
    }

    pub fn is_vector(&self) -> (b: bool)
        ensures
            b == (self is Vector),
    {
        match self {
            Sexp::Vector(..) => true,
            _ => false,
        }
    }

    /// Whether this is the name `test`.
    pub fn is(&self, test: Ident) -> (b: bool)
        ensures
            b == (self@ == SexpView::Ident(test)),
    {
        match self {
            Sexp::Ident(sym) => sym.0 == test.0,
            _ => false,
        }
    }
}

} // verus!
