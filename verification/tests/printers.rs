use codecrafters_interpreter::ast_printer::{AstPrinter, RpnAstPrinter};
use codecrafters_interpreter::ast_printer_ref::{AstPrinterRef, ExprRef};
use codecrafters_interpreter::expr::{Binding, Expr};
use codecrafters_interpreter::number::Number;
use codecrafters_interpreter::token::{Literal, Token, TokenType};

fn num(x: f64) -> Literal {
    Literal::Num(Number::from_bits(x.to_bits()))
}

fn token(tt: TokenType, lexeme: &str) -> Token {
    Token::new(tt, lexeme.to_string(), None, 1)
}

fn lit(x: f64) -> Box<Expr> {
    Box::new(Expr::Literal(num(x)))
}

#[test]
fn test_ast_printer() {
    let expr = Expr::Binary {
        left: Box::new(Expr::Unary { operator: token(TokenType::MINUS, "-"), right: lit(123.0) }),
        operator: token(TokenType::STAR, "*"),
        right: Box::new(Expr::Grouping(lit(45.67))),
    };
    let ast_printer = AstPrinter::new(&expr);
    assert_eq!(ast_printer.print(), "(* (- 123.0) (group 45.67))");
}

#[test]
fn ast_printer_test_assignment_expression() {
    let expr = Expr::Assign {
        variable: Binding { name: token(TokenType::IDENTIFIER, "answer"), depth: None },
        value: Box::new(Expr::Binary { left: lit(40.0), operator: token(TokenType::PLUS, "+"), right: lit(2.0) }),
    };
    let ast_printer = AstPrinter::new(&expr);
    assert_eq!(ast_printer.print(), "(<- answer (+ 40.0 2.0))");
}

#[test]
fn test_ast_printer_ref() {
    let minus = token(TokenType::MINUS, "-");
    let star = token(TokenType::STAR, "*");
    let n123 = num(123.0);
    let n45 = num(45.67);
    let lit123 = ExprRef::Literal { value: Some(&n123) };
    let lit45 = ExprRef::Literal { value: Some(&n45) };
    let unary = ExprRef::Unary { operator: &minus, right: &lit123 };
    let group = ExprRef::Grouping { expr: &lit45 };
    let expr = ExprRef::Binary { left: &unary, operator: &star, right: &group };
    let ast_printer = AstPrinterRef::new(&expr);
    assert_eq!(ast_printer.print(), "(* (- 123.0) (group 45.67))");
}

#[test]
fn test_rpn_ast_printer() {
    let expr = Expr::Binary {
        left: Box::new(Expr::Grouping(Box::new(Expr::Binary {
            left: lit(1.0),
            operator: token(TokenType::PLUS, "+"),
            right: lit(2.0),
        }))),
        operator: token(TokenType::STAR, "*"),
        right: Box::new(Expr::Grouping(Box::new(Expr::Binary {
            left: lit(4.0),
            operator: token(TokenType::PLUS, "-"),
            right: lit(3.0),
        }))),
    };
    let printer = RpnAstPrinter::new(&expr);
    assert_eq!(printer.print(), "1.0 2.0 + 4.0 3.0 - *");
}

#[test]
fn rpn_ast_printer_test_assignment_expression() {
    let expr = Expr::Assign {
        variable: Binding { name: token(TokenType::IDENTIFIER, "answer"), depth: None },
        value: Box::new(Expr::Binary { left: lit(40.0), operator: token(TokenType::PLUS, "+"), right: lit(2.0) }),
    };
    let printer = RpnAstPrinter::new(&expr);
    assert_eq!(printer.print(), "answer 40.0 2.0 + <-");
}

#[test]
fn printers_nil_literal_ref_is_written_nil() {
    let expr = ExprRef::Literal { value: None };
    assert_eq!(AstPrinterRef::new(&expr).print(), "nil");
}

#[test]
fn printers_call_and_conditional_forms() {
    let call = Expr::Call {
        callee: Box::new(Expr::Variable(Binding { name: token(TokenType::IDENTIFIER, "f"), depth: None })),
        paren: token(TokenType::RIGHT_PAREN, ")"),
        arguments: vec![Expr::Literal(num(1.0)), Expr::Literal(num(2.5))],
    };
    assert_eq!(AstPrinter::new(&call).print(), "(call f 1.0 2.5)");
    assert_eq!(RpnAstPrinter::new(&call).print(), "(1.0 2.5 f)");
    let cond = Expr::Conditional {
        cond: Box::new(Expr::Literal(Literal::Bool(true))),
        left: lit(1.0),
        right: Box::new(Expr::Literal(Literal::Nil)),
    };
    assert_eq!(AstPrinter::new(&cond).print(), "(?: true 1.0 nil)");
    assert_eq!(RpnAstPrinter::new(&cond).print(), "?: true 1.0 nil");
}
