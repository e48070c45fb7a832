//! The builtins of the target language that compiled rules call.

use vstd::prelude::*;
use vstd::string::StringExecFns;
use vstd::string::StrSliceExecFns;
use crate::expression::Expr;
use crate::expression::ExprView;
use crate::expression::views;
use crate::text::chars_of;
use crate::text::last_index;
use crate::text::quoted;
use crate::text::rfind_char;

verus! {

/// `glob.match(lhs, null, rhs)`: whether `rhs` matches the pattern `lhs`.
pub open spec fn glob(lhs: ExprView, rhs: ExprView) -> ExprView {
    ExprView::Call("glob.match"@, seq![lhs, ExprView::Var("null"@), rhs])
}

/// `lower(lhs)`.
pub open spec fn lower(lhs: ExprView) -> ExprView {
    ExprView::Call("lower"@, seq![lhs])
}

/// `net.cidr_contains(cidr, ip)`.
pub open spec fn cidr_contains(cidr: ExprView, ip: ExprView) -> ExprView {
    ExprView::Call("net.cidr_contains"@, seq![cidr, ip])
}

/// `time.parse_rfc3339_ns(dt)`.
pub open spec fn datetime(dt: ExprView) -> ExprView {
    ExprView::Call("time.parse_rfc3339_ns"@, seq![dt])
}

/// `arn_like(lhs, rhs)`.
pub open spec fn arn_like(lhs: ExprView, rhs: ExprView) -> ExprView {
    ExprView::Call("arn_like"@, seq![lhs, rhs])
}

/// The sequence to iterate over for a context attribute that may hold one
/// value, a list or nothing. A variable `object.key` is split at its last dot
/// and read as `to_array(object.get(object, "key", []))`; a variable without a
/// dot is read as `to_array(var)`; any other expression is left as it is.
pub open spec fn to_array(expr: ExprView) -> ExprView {
    match expr {
        ExprView::Var(path) => match last_index(path, '.', path.len() as int) {
            Some(dot) => ExprView::Call(
                "to_array"@,
                seq![
                    ExprView::Call(
                        "object.get"@,
                        seq![
                            ExprView::Var(path.subrange(0, dot)),
                            ExprView::Var(quoted(path.subrange(dot + 1, path.len() as int))),
                            ExprView::List(Seq::empty()),
                        ],
                    ),
                ],
            ),
            None => ExprView::Call("to_array"@, seq![expr]),
        },
        _ => expr,
    }
}

/// Constructors for calls of the builtins.
pub struct Func;

impl Func {
    /// `glob.match(lhs, null, rhs)`, see [`glob`].
    pub fn glob(lhs: Expr, rhs: Expr) -> (r: Expr)
        ensures
            r@ == glob(lhs@, rhs@),
    {
        let args = vec![lhs, Expr::var("null"), rhs];
        assert(views(args@) =~= seq![lhs@, ExprView::Var("null"@), rhs@]);
        Expr::call("glob.match", args)
    }

    /// `lower(lhs)`, see [`lower`].
    pub fn lower(lhs: Expr) -> (r: Expr)
        ensures
            r@ == lower(lhs@),
    {
        let args = vec![lhs];
        assert(views(args@) =~= seq![lhs@]);
        Expr::call("lower", args)
    }

    /// `net.cidr_contains(cidr, ip)`, see [`cidr_contains`].
    pub fn cidr_contains(cidr: Expr, ip: Expr) -> (r: Expr)
        ensures
            r@ == cidr_contains(cidr@, ip@),
    {
        let args = vec![cidr, ip];
        assert(views(args@) =~= seq![cidr@, ip@]);
        Expr::call("net.cidr_contains", args)
    }

    /// `time.parse_rfc3339_ns(dt)`, see [`datetime`].
    pub fn datetime(dt: Expr) -> (r: Expr)
        ensures
            r@ == datetime(dt@),
    {
        let args = vec![dt];
        assert(views(args@) =~= seq![dt@]);
        Expr::call("time.parse_rfc3339_ns", args)
    }

    /// `arn_like(lhs, rhs)`, see [`arn_like`].
    pub fn arn_like(lhs: Expr, rhs: Expr) -> (r: Expr)
        ensures
            r@ == arn_like(lhs@, rhs@),
    {
        let args = vec![lhs, rhs];
        assert(views(args@) =~= seq![lhs@, rhs@]);
        Expr::call("arn_like", args)
    }

    /// The sequence to iterate over for a context attribute, see [`to_array`].
    pub fn to_array(expr: Expr) -> (r: Expr)
        ensures
            r@ == to_array(expr@),
    {
        let inner = match &expr {
            Expr::Var(v) => {
                let path = v.0.as_str();
                let chars = chars_of(path);
                match rfind_char(&chars, '.') {
                    Some(dot) => {
                        let object = path.substring_char(0, dot);
                        let key = path.substring_char(dot + 1, chars.len());
                        let name = String::from_str("\"").concat(key).concat("\"");
                        let empty: Vec<Expr> = Vec::new();
                        let args = vec![Expr::var(object), Expr::var(name.as_str()), Expr::list(empty)];
                        assert(views(empty@) =~= Seq::empty());
                        assert(views(args@) =~= seq![
                            ExprView::Var(path@.subrange(0, dot as int)),
                            ExprView::Var(quoted(path@.subrange(dot + 1, path@.len() as int))),
                            ExprView::List(Seq::empty()),
                        ]);
                        Expr::call("object.get", args)
                    },
                    None => expr,
                }
            },
            _ => {
                return expr;
            },
        };
        let args = vec![inner];
        assert(views(args@) =~= seq![inner@]);
        Expr::call("to_array", args)
    }
}

} // verus!
