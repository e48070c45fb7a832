//! Writing into a buffer that the caller holds.

use vstd::prelude::*;
use vstd::string::StringExecFns;
use crate::expression::Expr;
use crate::expression::render;
use crate::expression::render_list;
use crate::expression::views;
use crate::expression::write_expr;
use crate::expression::write_joined;
use crate::expression::wrote;
use crate::parser::Error;
use crate::parser::ErrorView;
use crate::text::join;

verus! {

/// Values that can be appended to a text.
pub trait Emit {
    /// What the value appends, or the error that stands in its way.
    spec fn emitted(&self) -> Result<Seq<char>, ErrorView>;

    /// Appends the value to `w`. After an error, `w` holds what was written
    /// before the error was met.
    fn emit(&self, w: &mut String) -> (r: Result<(), Error>)
        ensures
            wrote(r, old(w)@, final(w)@, self.emitted()),
    ;
}

impl Emit for Expr {
    open spec fn emitted(&self) -> Result<Seq<char>, ErrorView> {
        render(self@)
    }

    fn emit(&self, w: &mut String) -> (r: Result<(), Error>) {
        write_expr(self, w)
    }
}

impl Emit for Vec<Expr> {
    open spec fn emitted(&self) -> Result<Seq<char>, ErrorView> {
        match render_list(views(self@)) {
            Ok(texts) => Ok("["@ + join(texts, ", "@) + "]"@),
            Err(e) => Err(e),
        }
    }

    fn emit(&self, w: &mut String) -> (r: Result<(), Error>) {
        w.append("[");
        match write_joined(self, ", ", w) {
            Err(e) => {
                return Err(e);
            },
            Ok(_) => {},
        }
        w.append("]");
        proof {
            let texts = render_list(views(self@))->Ok_0;
            assert(w@ =~= old(w)@ + ("["@ + join(texts, ", "@) + "]"@));
        }
        Ok(())
    }
}

impl Emit for &str {
    open spec fn emitted(&self) -> Result<Seq<char>, ErrorView> {
        Ok(self@)
    }

    fn emit(&self, w: &mut String) -> (r: Result<(), Error>) {
        w.append(self);
        Ok(())
    }
}

impl Emit for char {
    open spec fn emitted(&self) -> Result<Seq<char>, ErrorView> {
        Ok(seq![*self])
    }

    fn emit(&self, w: &mut String) -> (r: Result<(), Error>) {
        w.push(*self);
        assert(w@ =~= old(w)@ + seq![*self]);
        Ok(())
    }
}

} // verus!
