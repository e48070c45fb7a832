//! Mapping a fallible function over a collection.

use vstd::prelude::*;
use crate::expression::Expr;
use crate::parser::Error;

verus! {

/// Whether `f` can return the expressions `out` for the first elements of
/// `items`.
pub open spec fn maps_to<T, F: Fn(T) -> Result<Expr, Error>>(f: F, items: Seq<T>, out: Seq<Expr>) -> bool {
    out.len() <= items.len() && forall|i: int|
        0 <= i < out.len() ==> call_ensures(f, (items[i],), Ok::<Expr, Error>(#[trigger] out[i]))
}

/// Collections whose elements can be turned into expressions one by one.
pub trait TryMapExprIter: Sized {
    /// What the collection holds.
    type Input;

    /// The elements, in the order in which they are visited.
    spec fn items(self) -> Seq<Self::Input>;

    /// Applies `f` to each element in order and collects the expressions.
    /// The first error ends the walk and is returned; `f` is then not
    /// called on the elements that follow.
    fn map_expr<F>(self, f: F) -> (r: Result<Vec<Expr>, Error>) where
        F: Fn(Self::Input) -> Result<Expr, Error>,

        requires
            forall|i: int| 0 <= i < self.items().len() ==> call_requires(f, (self.items()[i],)),
        ensures
            match r {
                Ok(out) => out@.len() == self.items().len() && maps_to(f, self.items(), out@),
                Err(e) => exists|before: Seq<Expr>|
                    before.len() < self.items().len() && #[trigger] maps_to(
                        f,
                        self.items(),
                        before,
                    ) && call_ensures(
                        f,
                        (self.items()[before.len() as int],),
                        Err::<Expr, Error>(e),
                    ),
            },
    ;
}

impl<T> TryMapExprIter for Vec<T> {
    type Input = T;

    open spec fn items(self) -> Seq<T> {
        self@
    }

    fn map_expr<F>(self, f: F) -> (r: Result<Vec<Expr>, Error>) where
        F: Fn(T) -> Result<Expr, Error>,
     {
        let ghost all = self@;
        let mut out: Vec<Expr> = Vec::new();
        assert forall|i: int| 0 <= i < all.len() implies call_requires(f, (all[i],)) by {
            assert(all[i] == self.items()[i]);
        }
        for item in it: self
            invariant
                it.seq() == all,
                all == self.items(),
                forall|i: int| 0 <= i < all.len() ==> call_requires(f, (all[i],)),
                out@.len() == it.index(),
                maps_to(f, all, out@),
        {
            match f(item) {
                Ok(e) => {
                    out.push(e);
                },
                Err(e) => {
                    assert(out@.len() == it.index() && maps_to(f, self.items(), out@)
                        && call_ensures(
                        f,
                        (self.items()[it.index() as int],),
                        Err::<Expr, Error>(e),
                    ));
                    return Err(e);
                },
            }
        }
        Ok(out)
    }
}

} // verus!
