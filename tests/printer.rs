use yali::expression::{Binary, Expression, Grouping, Literal, Unary, Value};
use yali::token::{Token, TokenType};
use yali::visitors::{AstPrinter, Visitor};

fn op(kind: TokenType, lexeme: &str) -> Token {
    Token { kind, lexeme: lexeme.to_string(), line: 1 }
}

fn number(text: &str) -> Expression {
    Expression::Literal(Literal { value: Value::Number(text.to_string()) })
}

fn sample() -> Expression {
    Expression::Binary(Box::new(Binary {
        left: Expression::Unary(Box::new(Unary {
            operator: op(TokenType::Minus, "-"),
            right: number("123"),
        })),
        operator: op(TokenType::Star, "*"),
        right: Expression::Grouping(Box::new(Grouping { expression: number("45.67") })),
    }))
}

#[test]
fn prints_nested_expression_in_prefix_form() {
    let printer = AstPrinter {};
    assert_eq!(printer.print(&sample()), "(* (- 123) (group 45.67))");
}

#[test]
fn accept_dispatches_to_the_visitor() {
    let printer = AstPrinter {};
    assert_eq!(sample().accept(&printer), "(* (- 123) (group 45.67))");
    let grouping = Grouping { expression: number("1") };
    assert_eq!(printer.visit_grouping(&grouping), "(group 1)");
}

#[test]
fn prints_literals_as_written() {
    let printer = AstPrinter {};
    let cases = [
        (Value::True, "true"),
        (Value::False, "false"),
        (Value::Nil, "nil"),
        (Value::String("hi there".to_string()), "hi there"),
        (Value::Number("0.5".to_string()), "0.5"),
    ];
    for (value, text) in cases {
        let e = Expression::Literal(Literal { value });
        assert_eq!(printer.print(&e), text);
    }
}

#[test]
fn prints_unary_bang() {
    let printer = AstPrinter {};
    let e = Expression::Unary(Box::new(Unary {
        operator: op(TokenType::Bang, "!"),
        right: Expression::Literal(Literal { value: Value::True }),
    }));
    assert_eq!(printer.print(&e), "(! true)");
}

#[test]
fn visitor_methods_print_each_shape() {
    let printer = AstPrinter {};
    let binary = Binary {
        left: number("1"),
        operator: op(TokenType::Plus, "+"),
        right: number("2"),
    };
    assert_eq!(printer.visit_binary(&binary), "(+ 1 2)");
    let unary = Unary { operator: op(TokenType::Minus, "-"), right: number("3") };
    assert_eq!(printer.visit_unary(&unary), "(- 3)");
    let literal = Literal { value: Value::Nil };
    assert_eq!(printer.visit_literal(&literal), "nil");
}
