//! Expressions built from borrowed parts, and their prefix form.

use vstd::prelude::*;
use crate::text::text_of;
use crate::token::{literal_view_text, Literal, Token};

verus! {

/// An expression whose parts are borrowed rather than owned.
pub enum ExprRef<'a> {
    Binary { left: &'a ExprRef<'a>, operator: &'a Token, right: &'a ExprRef<'a> },
    Grouping { expr: &'a ExprRef<'a> },
    Literal { value: Option<&'a Literal> },
    Unary { operator: &'a Token, right: &'a ExprRef<'a> },
}

/// The prefix form of a borrowed expression; a missing literal is `nil`.
pub open spec fn ref_text(e: &ExprRef) -> Seq<char>
    decreases e,
{
    match e {
        ExprRef::Binary { left, operator, right } => "("@ + operator.lexeme@ + " "@ + ref_text(left) + " "@ + ref_text(right) + ")"@,
        ExprRef::Grouping { expr } => "(group "@ + ref_text(expr) + ")"@,
        ExprRef::Literal { value } => match value {
            Some(l) => literal_view_text(l@),
            None => "nil"@,
        },
        ExprRef::Unary { operator, right } => "("@ + operator.lexeme@ + " "@ + ref_text(right) + ")"@,
    }
}

/// A printer of the prefix form of one borrowed expression.
pub struct AstPrinterRef<'a> {
    expr: &'a ExprRef<'a>,
}

impl<'a> AstPrinterRef<'a> {
    pub fn new(expr: &'a ExprRef<'a>) -> (r: AstPrinterRef<'a>)
        ensures
            r.expr() == expr,
    {
        AstPrinterRef { expr }
    }

    pub closed spec fn expr(&self) -> &'a ExprRef<'a> {
        self.expr
    }

    /// The prefix form of the expression.
    pub fn print(&self) -> (s: String)
        ensures
            s@ == ref_text(self.expr()),
    {
        Self::visit_expr(self.expr)
    }

    /// `(name inner)`.
    pub fn parenthesize_unary(name: &str, inner: &String) -> (s: String)
        ensures
            s@ == "("@ + name@ + " "@ + inner@ + ")"@,
    {
        let mut s = text_of("(");
        s.append(name);
        s.append(" ");
        s.append(inner.as_str());
        s.append(")");
        proof {
            reveal_strlit("(");
            reveal_strlit(" ");
            reveal_strlit(")");
        }
        s
    }

    /// `(name left right)`.
    pub fn parenthesize_binary(name: &str, left: &String, right: &String) -> (s: String)
        ensures
            s@ == "("@ + name@ + " "@ + left@ + " "@ + right@ + ")"@,
    {
        let mut s = text_of("(");
        s.append(name);
        s.append(" ");
        s.append(left.as_str());
        s.append(" ");
        s.append(right.as_str());
        s.append(")");
        proof {
            reveal_strlit("(");
            reveal_strlit(" ");
            reveal_strlit(")");
        }
        s
    }

    fn visit_expr(e: &ExprRef) -> (s: String)
        ensures
            s@ == ref_text(e),
        decreases e,
    {
        match e {
            ExprRef::Binary { left, operator, right } => {
                let l = Self::visit_expr(left);
                let r = Self::visit_expr(right);
                Self::parenthesize_binary(operator.lexeme.as_str(), &l, &r)
            },
            ExprRef::Grouping { expr } => {
                let i = Self::visit_expr(expr);
                let r = Self::parenthesize_unary("group", &i);
                proof {
                    reveal_strlit("(");
                    reveal_strlit(" ");
                    reveal_strlit(")");
                    reveal_strlit("group");
                    reveal_strlit("(group ");
                    assert(r@ =~= "(group "@ + ref_text(expr) + ")"@);
                }
                r
            },
            ExprRef::Literal { value } => match value {
                Some(l) => l.to_text(),
                None => text_of("nil"),
            },
            ExprRef::Unary { operator, right } => {
                let r = Self::visit_expr(right);
                Self::parenthesize_unary(operator.lexeme.as_str(), &r)
            },
        }
    }
}

} // verus!
