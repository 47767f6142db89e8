use vstd::prelude::*;
use crate::expr::{views_of, lemma_views_of, Expr, ExprV};

verus! {

/// An ordered, possibly empty sequence of expressions. The empty list is the
/// canonical nil value.
#[derive(Debug)]
pub struct List {
    pub items: Vec<Expr>,
}

impl List {
    /// Image of the list: the sequence of its elements' images.
    pub open spec fn view(self) -> Seq<ExprV>
        decreases self,
    {
        views_of(self.items@)
    }

    /// The empty list.
    pub fn new() -> (r: List)
        ensures
            r.view() == Seq::<ExprV>::empty(),
    {
        let r = List { items: Vec::new() };
        proof {
            assert(r.view() =~= Seq::<ExprV>::empty());
        }
        r
    }

    /// Wrap an existing vector of expressions.
    pub fn from_vec(items: Vec<Expr>) -> (r: List)
        ensures
            r.view() == views_of(items@),
    {
        List { items }
    }

    /// Append one element at the end.
    pub fn push(&mut self, x: Expr)
        ensures
            final(self).view() == old(self).view().push(x.view()),
    {
        self.items.push(x);
        proof {
            lemma_views_of(old(self).items@);
            lemma_views_of(self.items@);
            assert(final(self).view() =~= old(self).view().push(x.view()));
        }
    }

    /// The first element. Demands a non-empty list.
    pub fn car(&self) -> (r: &Expr)
        requires
            self.view().len() > 0,
        ensures
            r.view() == self.view()[0],
    {
        proof {
            lemma_views_of(self.items@);
        }
        &self.items[0]
    }

    /// All elements after the first, as a new list. Demands a non-empty list.
    pub fn cdr(&self) -> (r: List)
        requires
            self.view().len() > 0,
        ensures
            r.view() == self.view().subrange(1, self.view().len() as int),
    {
        proof {
            lemma_views_of(self.items@);
        }
        let mut rest: Vec<Expr> = Vec::new();
        let mut i: usize = 1;
        while i < self.items.len()
            invariant
                1 <= i <= self.items.len(),
                self.view().len() == self.items@.len(),
                rest@.len() == i - 1,
                forall|j: int| 0 <= j < i - 1 ==> rest@[j].view() == self.view()[j + 1],
            decreases self.items.len() - i,
        {
            proof {
                lemma_views_of(self.items@);
            }
            let e = self.items[i].dup();
            rest.push(e);
            i = i + 1;
        }
        let r = List { items: rest };
        proof {
            lemma_views_of(self.items@);
            lemma_views_of(rest@);
            assert(r.view() =~= self.view().subrange(1, self.view().len() as int));
        }
        r
    }

    /// The element at a position.
    pub fn get(&self, i: usize) -> (r: &Expr)
        requires
            i < self.view().len(),
        ensures
            r.view() == self.view()[i as int],
    {
        proof {
            lemma_views_of(self.items@);
        }
        &self.items[i]
    }

    /// Whether the list is empty.
    pub fn is_empty(&self) -> (r: bool)
        ensures
            r == (self.view().len() == 0),
    {
        proof {
            lemma_views_of(self.items@);
        }
        self.items.len() == 0
    }

    /// The number of elements.
    pub fn len(&self) -> (r: usize)
        ensures
            r == self.view().len(),
    {
        proof {
            lemma_views_of(self.items@);
        }
        self.items.len()
    }

    /// A deep copy: same elements, fresh ownership.
    pub fn dup(&self) -> (r: List)
        ensures
            r.view() == self.view(),
        decreases *self,
    {
        proof {
            lemma_views_of(self.items@);
        }
        let mut out: Vec<Expr> = Vec::new();
        let mut i: usize = 0;
        while i < self.items.len()
            invariant
                i <= self.items.len(),
                self.view().len() == self.items@.len(),
                out@.len() == i as int,
                forall|j: int| 0 <= j < i ==> out@[j].view() == self.view()[j],
            decreases self.items.len() - i,
        {
            proof {
                lemma_views_of(self.items@);
            }
            let e = self.items[i].dup();
            out.push(e);
            i = i + 1;
        }
        let r = List { items: out };
        proof {
            lemma_views_of(self.items@);
            lemma_views_of(out@);
            assert(r.view() =~= self.view());
        }
        r
    }
}

} // verus!
