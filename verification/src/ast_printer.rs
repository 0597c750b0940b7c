//! Printing expressions: as nested prefix forms such as `(* (- 1.0) 2.0)`,
//! and in reverse Polish notation such as `1.0 2.0 + 3.0 *`.

use vstd::prelude::*;
use crate::expr::{expr_view, exprs_view, lemma_exprs_view_len, Expr, ExprView};
use crate::text::text_of;
use crate::token::literal_view_text;

verus! {

/// The prefix form of an expression.
pub open spec fn ast_text(e: ExprView) -> Seq<char>
    decreases e, 1nat,
{
    match e {
        ExprView::Assign { variable, value } => "(<- "@ + variable.name.lexeme + " "@ + ast_text(*value) + ")"@,
        ExprView::Binary { left, operator, right } => "("@ + operator.lexeme + " "@ + ast_text(*left) + " "@ + ast_text(*right) + ")"@,
        ExprView::Call { callee, paren: _, arguments } => "(call "@ + ast_text(*callee) + ast_args_text(arguments, 0) + ")"@,
        ExprView::Get { object, name } => "(. "@ + ast_text(*object) + " "@ + name.lexeme + ")"@,
        ExprView::Conditional { cond, left, right } => "(?: "@ + ast_text(*cond) + " "@ + ast_text(*left) + " "@ + ast_text(*right) + ")"@,
        ExprView::Grouping(inner) => "(group "@ + ast_text(*inner) + ")"@,
        ExprView::Lambda(_) => "(fun)"@,
        ExprView::Literal(l) => literal_view_text(l),
        ExprView::Logical { left, operator, right } => "("@ + operator.lexeme + " "@ + ast_text(*left) + " "@ + ast_text(*right) + ")"@,
        ExprView::SetField { object, name, value } => "(= "@ + ast_text(*object) + " "@ + name.lexeme + " "@ + ast_text(*value) + ")"@,
        ExprView::Super { keyword: _, method } => "(super "@ + method.lexeme + ")"@,
        ExprView::This(_) => "this"@,
        ExprView::Unary { operator, right } => "("@ + operator.lexeme + " "@ + ast_text(*right) + ")"@,
        ExprView::Variable(b) => b.name.lexeme,
    }
}

/// The arguments from the `i`-th on, each after a space.
pub open spec fn ast_args_text(args: Seq<ExprView>, i: int) -> Seq<char>
    decreases args, args.len() - i,
{
    if i < 0 || i >= args.len() {
        Seq::empty()
    } else {
        " "@ + ast_text(args[i]) + ast_args_text(args, i + 1)
    }
}

/// The reverse Polish form of an expression.
pub open spec fn rpn_text(e: ExprView) -> Seq<char>
    decreases e, 1nat,
{
    match e {
        ExprView::Assign { variable, value } => variable.name.lexeme + " "@ + rpn_text(*value) + " <-"@,
        ExprView::Binary { left, operator, right } => rpn_text(*left) + " "@ + rpn_text(*right) + " "@ + operator.lexeme,
        ExprView::Call { callee, paren: _, arguments } => "("@ + rpn_args_text(arguments, 0) + rpn_text(*callee) + ")"@,
        ExprView::Get { object, name } => rpn_text(*object) + " "@ + name.lexeme + " ."@,
        ExprView::Conditional { cond, left, right } => "?: "@ + rpn_text(*cond) + " "@ + rpn_text(*left) + " "@ + rpn_text(*right),
        ExprView::Grouping(inner) => rpn_text(*inner),
        ExprView::Lambda(_) => "fun"@,
        ExprView::Literal(l) => literal_view_text(l),
        ExprView::Logical { left, operator, right } => rpn_text(*left) + " "@ + rpn_text(*right) + " "@ + operator.lexeme,
        ExprView::SetField { object, name, value } => rpn_text(*object) + " "@ + name.lexeme + " "@ + rpn_text(*value) + " ="@,
        ExprView::Super { keyword: _, method } => "super "@ + method.lexeme,
        ExprView::This(_) => "this"@,
        ExprView::Unary { operator, right } => rpn_text(*right) + " "@ + operator.lexeme,
        ExprView::Variable(b) => b.name.lexeme,
    }
}

/// The arguments from the `i`-th on, each before a space.
pub open spec fn rpn_args_text(args: Seq<ExprView>, i: int) -> Seq<char>
    decreases args, args.len() - i,
{
    if i < 0 || i >= args.len() {
        Seq::empty()
    } else {
        rpn_text(args[i]) + " "@ + rpn_args_text(args, i + 1)
    }
}

/// A printer of the prefix form of one expression.
pub struct AstPrinter<'a> {
    expr: &'a Expr,
}

impl<'a> AstPrinter<'a> {
    pub fn new(expr: &'a Expr) -> (r: AstPrinter<'a>)
        ensures
            r.expr() == expr,
    {
        AstPrinter { expr }
    }

    pub closed spec fn expr(&self) -> &'a Expr {
        self.expr
    }

    /// The prefix form of the expression.
    pub fn print(&self) -> (s: String)
        ensures
            s@ == ast_text(self.expr()@),
    {
        Self::visit_expr(self.expr)
    }

    fn parenthesize_unary(name: &str, inner: &String) -> (s: String)
        ensures
            s@ == "("@ + name@ + " "@ + inner@ + ")"@,
    {
        let mut s = text_of("(");
        s.append(name);
        s.append(" ");
        s.append(inner.as_str());
        s.append(")");
        proof {
            reveal_strlit("(");
            reveal_strlit(" ");
            reveal_strlit(")");
        }
        s
    }

    fn parenthesize_binary(name: &str, left: &String, right: &String) -> (s: String)
        ensures
            s@ == "("@ + name@ + " "@ + left@ + " "@ + right@ + ")"@,
    {
        let mut s = text_of("(");
        s.append(name);
        s.append(" ");
        s.append(left.as_str());
        s.append(" ");
        s.append(right.as_str());
        s.append(")");
        proof {
            reveal_strlit("(");
            reveal_strlit(" ");
            reveal_strlit(")");
        }
        s
    }

    fn visit_expr(e: &Expr) -> (s: String)
        ensures
            s@ == ast_text(e@),
        decreases e, 1nat,
    {
        proof {
            reveal_strlit("(");
            reveal_strlit(" ");
            reveal_strlit(")");
        }
        match e {
            Expr::Assign { variable, value } => {
                let mut s = text_of("(<- ");
                s.append(variable.name.lexeme.as_str());
                s.append(" ");
                let v = Self::visit_expr(value);
                s.append(v.as_str());
                s.append(")");
                proof {
                    reveal_strlit("(<- ");
                    assert(s@ =~= "(<- "@ + variable.name.lexeme@ + " "@ + ast_text(value@) + ")"@);
                    assert(e@ == ExprView::Assign { variable: variable@, value: Box::new(crate::expr::expr_view(value)) });
                    assert(ast_text(e@) == "(<- "@ + variable.name.lexeme@ + " "@ + ast_text(value@) + ")"@);
                }
                s
            },
            Expr::Binary { left, operator, right } => {
                let l = Self::visit_expr(left);
                let r = Self::visit_expr(right);
                Self::parenthesize_binary(operator.lexeme.as_str(), &l, &r)
            },
            Expr::Call { callee, paren: _, arguments } => {
                let mut s = text_of("(call ");
                let c = Self::visit_expr(callee);
                s.append(c.as_str());
                let a = Self::visit_args(arguments);
                s.append(a.as_str());
                s.append(")");
                proof {
                    reveal_strlit("(call ");
                    assert(s@ =~= "(call "@ + ast_text(callee@) + ast_args_text(exprs_view(arguments@), 0) + ")"@);
                }
                s
            },
            Expr::Get { object, name } => {
                let mut s = text_of("(. ");
                let o = Self::visit_expr(object);
                s.append(o.as_str());
                s.append(" ");
                s.append(name.lexeme.as_str());
                s.append(")");
                proof {
                    reveal_strlit("(. ");
                    assert(s@ =~= "(. "@ + ast_text(object@) + " "@ + name.lexeme@ + ")"@);
                }
                s
            },
            Expr::Conditional { cond, left, right } => {
                let mut s = text_of("(?: ");
                let c = Self::visit_expr(cond);
                s.append(c.as_str());
                s.append(" ");
                let l = Self::visit_expr(left);
                s.append(l.as_str());
                s.append(" ");
                let r = Self::visit_expr(right);
                s.append(r.as_str());
                s.append(")");
                proof {
                    reveal_strlit("(?: ");
                    assert(s@ =~= "(?: "@ + ast_text(cond@) + " "@ + ast_text(left@) + " "@ + ast_text(right@) + ")"@);
                }
                s
            },
            Expr::Grouping(inner) => {
                let i = Self::visit_expr(inner);
                let r = Self::parenthesize_unary("group", &i);
                proof {
                    reveal_strlit("group");
                    reveal_strlit("(group ");
                    assert(r@ =~= "(group "@ + ast_text(inner@) + ")"@);
                }
                r
            },
            Expr::Lambda(_) => text_of("(fun)"),
            Expr::Literal(l) => l.to_text(),
            Expr::Logical { left, operator, right } => {
                let l = Self::visit_expr(left);
                let r = Self::visit_expr(right);
                Self::parenthesize_binary(operator.lexeme.as_str(), &l, &r)
            },
            Expr::SetField { object, name, value } => {
                let mut s = text_of("(= ");
                let o = Self::visit_expr(object);
                s.append(o.as_str());
                s.append(" ");
                s.append(name.lexeme.as_str());
                s.append(" ");
                let v = Self::visit_expr(value);
                s.append(v.as_str());
                s.append(")");
                proof {
                    reveal_strlit("(= ");
                    assert(s@ =~= "(= "@ + ast_text(object@) + " "@ + name.lexeme@ + " "@ + ast_text(value@) + ")"@);
                }
                s
            },
            Expr::Super { keyword: _, method } => {
                let mut s = text_of("(super ");
                s.append(method.lexeme.as_str());
                s.append(")");
                proof {
                    reveal_strlit("(super ");
                    assert(s@ =~= "(super "@ + method.lexeme@ + ")"@);
                }
                s
            },
            Expr::This(_) => text_of("this"),
            Expr::Unary { operator, right } => {
                let r = Self::visit_expr(right);
                Self::parenthesize_unary(operator.lexeme.as_str(), &r)
            },
            Expr::Variable(b) => b.name.lexeme.clone(),
        }
    }

    fn visit_args(args: &Vec<Expr>) -> (s: String)
        ensures
            s@ == ast_args_text(exprs_view(args@), 0),
        decreases args, 0nat,
    {
        proof {
            lemma_exprs_view_len(args@);
        }
        let ghost v = exprs_view(args@);
        let mut s = String::new();
        let mut i: usize = args.len();
        while i > 0
            invariant
                i <= args@.len(),
                v == exprs_view(args@),
                v.len() == args@.len(),
                forall|j: int| 0 <= j < args@.len() ==> #[trigger] v[j] == expr_view(&args@[j]),
                s@ == ast_args_text(v, i as int),
            decreases i,
        {
            i = i - 1;
            proof {
                assert(decreases_to!(args => args@));
                assert(decreases_to!(args@ => args@[i as int]));
            }
            let t = Self::visit_expr(&args[i]);
            let mut u = text_of(" ");
            u.append(t.as_str());
            u.append(s.as_str());
            proof {
                reveal_strlit(" ");
            }
            s = u;
        }
        s
    }
}

/// A printer of the reverse Polish form of one expression.
pub struct RpnAstPrinter<'a> {
    expr: &'a Expr,
}

impl<'a> RpnAstPrinter<'a> {
    pub fn new(expr: &'a Expr) -> (r: RpnAstPrinter<'a>)
        ensures
            r.expr() == expr,
    {
        RpnAstPrinter { expr }
    }

    pub closed spec fn expr(&self) -> &'a Expr {
        self.expr
    }

    /// The reverse Polish form of the expression.
    pub fn print(&self) -> (s: String)
        ensures
            s@ == rpn_text(self.expr()@),
    {
        Self::visit_expr(self.expr)
    }

    fn format_unary(name: &str, inner: &String) -> (s: String)
        ensures
            s@ == inner@ + " "@ + name@,
    {
        let mut s = inner.clone();
        s.append(" ");
        s.append(name);
        proof {
            reveal_strlit(" ");
        }
        s
    }

    fn format_binary(name: &str, left: &String, right: &String) -> (s: String)
        ensures
            s@ == left@ + " "@ + right@ + " "@ + name@,
    {
        let mut s = left.clone();
        s.append(" ");
        s.append(right.as_str());
        s.append(" ");
        s.append(name);
        proof {
            reveal_strlit(" ");
        }
        s
    }

    fn visit_expr(e: &Expr) -> (s: String)
        ensures
            s@ == rpn_text(e@),
        decreases e, 1nat,
    {
        proof {
            reveal_strlit(" ");
        }
        match e {
            Expr::Assign { variable, value } => {
                let mut s = variable.name.lexeme.clone();
                s.append(" ");
                let v = Self::visit_expr(value);
                s.append(v.as_str());
                s.append(" <-");
                proof {
                    reveal_strlit(" <-");
                }
                s
            },
            Expr::Binary { left, operator, right } => {
                let l = Self::visit_expr(left);
                let r = Self::visit_expr(right);
                Self::format_binary(operator.lexeme.as_str(), &l, &r)
            },
            Expr::Call { callee, paren: _, arguments } => {
                let mut s = text_of("(");
                let a = Self::visit_args(arguments);
                s.append(a.as_str());
                let c = Self::visit_expr(callee);
                s.append(c.as_str());
                s.append(")");
                proof {
                    reveal_strlit("(");
                    reveal_strlit(")");
                }
                s
            },
            Expr::Get { object, name } => {
                let mut s = Self::visit_expr(object);
                s.append(" ");
                s.append(name.lexeme.as_str());
                s.append(" .");
                proof {
                    reveal_strlit(" .");
                }
                s
            },
            Expr::Conditional { cond, left, right } => {
                let mut s = text_of("?: ");
                let c = Self::visit_expr(cond);
                s.append(c.as_str());
                s.append(" ");
                let l = Self::visit_expr(left);
                s.append(l.as_str());
                s.append(" ");
                let r = Self::visit_expr(right);
                s.append(r.as_str());
                proof {
                    reveal_strlit("?: ");
                }
                s
            },
            Expr::Grouping(inner) => Self::visit_expr(inner),
            Expr::Lambda(_) => text_of("fun"),
            Expr::Literal(l) => l.to_text(),
            Expr::Logical { left, operator, right } => {
                let l = Self::visit_expr(left);
                let r = Self::visit_expr(right);
                Self::format_binary(operator.lexeme.as_str(), &l, &r)
            },
            Expr::SetField { object, name, value } => {
                let mut s = Self::visit_expr(object);
                s.append(" ");
                s.append(name.lexeme.as_str());
                s.append(" ");
                let v = Self::visit_expr(value);
                s.append(v.as_str());
                s.append(" =");
                proof {
                    reveal_strlit(" =");
                }
                s
            },
            Expr::Super { keyword: _, method } => {
                let mut s = text_of("super ");
                s.append(method.lexeme.as_str());
                proof {
                    reveal_strlit("super ");
                }
                s
            },
            Expr::This(_) => text_of("this"),
            Expr::Unary { operator, right } => {
                let r = Self::visit_expr(right);
                Self::format_unary(operator.lexeme.as_str(), &r)
            },
            Expr::Variable(b) => b.name.lexeme.clone(),
        }
    }

    fn visit_args(args: &Vec<Expr>) -> (s: String)
        ensures
            s@ == rpn_args_text(exprs_view(args@), 0),
        decreases args, 0nat,
    {
        proof {
            lemma_exprs_view_len(args@);
        }
        let ghost v = exprs_view(args@);
        let mut s = String::new();
        let mut i: usize = args.len();
        while i > 0
            invariant
                i <= args@.len(),
                v == exprs_view(args@),
                v.len() == args@.len(),
                forall|j: int| 0 <= j < args@.len() ==> #[trigger] v[j] == expr_view(&args@[j]),
                s@ == rpn_args_text(v, i as int),
            decreases i,
        {
            i = i - 1;
            proof {
                assert(decreases_to!(args => args@));
                assert(decreases_to!(args@ => args@[i as int]));
            }
            let mut u = Self::visit_expr(&args[i]);
            u.append(" ");
            u.append(s.as_str());
            proof {
                reveal_strlit(" ");
            }
            s = u;
        }
        s
    }
}

} // verus!

verus! {

/// A logical expression prints as its operator, then its left operand, then
/// its right operand, in source order: the form starts with `(`, the
/// operator, a space and the form of the left operand, and ends with the form
/// of the right operand and `)`; it is the form of the binary expression with
/// the same parts.
pub proof fn law_logical_prints_in_source_order(left: ExprView, operator: crate::token::TokenView, right: ExprView)
    ensures
        ({
            let t = ast_text(ExprView::Logical { left: Box::new(left), operator, right: Box::new(right) });
            let head = "("@ + operator.lexeme + " "@ + ast_text(left) + " "@;
            let tail = ast_text(right) + ")"@;
            &&& t.len() == head.len() + tail.len()
            &&& t.subrange(0, head.len() as int) == head
            &&& t.subrange(head.len() as int, t.len() as int) == tail
            &&& t == ast_text(ExprView::Binary { left: Box::new(left), operator, right: Box::new(right) })
        }),
{
    let t = ast_text(ExprView::Logical { left: Box::new(left), operator, right: Box::new(right) });
    let head = "("@ + operator.lexeme + " "@ + ast_text(left) + " "@;
    let tail = ast_text(right) + ")"@;
    assert(t =~= head + tail);
    assert(t.subrange(0, head.len() as int) =~= head);
    assert(t.subrange(head.len() as int, t.len() as int) =~= tail);
}

} // verus!

verus! {

/// In postfix form a binary or logical expression writes its left operand,
/// then its right operand, then its operator; the two kinds print alike.
pub proof fn law_postfix_puts_the_operator_last(left: ExprView, operator: crate::token::TokenView, right: ExprView)
    ensures
        ({
            let t = rpn_text(ExprView::Binary { left: Box::new(left), operator, right: Box::new(right) });
            let head = rpn_text(left) + " "@ + rpn_text(right) + " "@;
            &&& t.len() == head.len() + operator.lexeme.len()
            &&& t.subrange(0, head.len() as int) == head
            &&& t.subrange(head.len() as int, t.len() as int) == operator.lexeme
            &&& t == rpn_text(ExprView::Logical { left: Box::new(left), operator, right: Box::new(right) })
        }),
{
    let t = rpn_text(ExprView::Binary { left: Box::new(left), operator, right: Box::new(right) });
    let head = rpn_text(left) + " "@ + rpn_text(right) + " "@;
    assert(t =~= head + operator.lexeme);
    assert(t.subrange(0, head.len() as int) =~= head);
    assert(t.subrange(head.len() as int, t.len() as int) =~= operator.lexeme);
}

} // verus!
