//! Walks over expression trees.

use vstd::prelude::*;

use crate::expression::{Binary, Expression, Grouping, Literal, Unary, Value};

verus! {

/// One operation over expression trees, given case by case. Each
/// implementation says, for each shape, which results its visit may give.
pub trait Visitor<R> {
    spec fn literal_result(&self, literal: Literal, r: R) -> bool;

    spec fn unary_result(&self, unary: Unary, r: R) -> bool;

    spec fn binary_result(&self, binary: Binary, r: R) -> bool;

    spec fn grouping_result(&self, grouping: Grouping, r: R) -> bool;

    fn visit_literal(&self, literal: &Literal) -> (r: R)
        ensures
            self.literal_result(*literal, r),
    ;

    fn visit_unary(&self, unary: &Unary) -> (r: R)
        ensures
            self.unary_result(*unary, r),
    ;

    fn visit_binary(&self, binary: &Binary) -> (r: R)
        ensures
            self.binary_result(*binary, r),
    ;

    fn visit_grouping(&self, grouping: &Grouping) -> (r: R)
        ensures
            self.grouping_result(*grouping, r),
    ;
}

/// The text of a literal value.
pub open spec fn value_text(v: Value) -> Seq<char> {
    match v {
        Value::Number(s) => s@,
        Value::String(s) => s@,
        Value::True => "true"@,
        Value::False => "false"@,
        Value::Nil => "nil"@,
    }
}

/// `(name part part ...)`: a space after the name, even with no parts.
pub open spec fn parenthesized(name: Seq<char>, parts: Seq<Seq<char>>) -> Seq<char> {
    "("@ + name + " "@ + joined(parts) + ")"@
}

/// The parts with one space between each two.
pub open spec fn joined(parts: Seq<Seq<char>>) -> Seq<char>
    decreases parts.len(),
{
    if parts.len() == 0 {
        Seq::empty()
    } else if parts.len() == 1 {
        parts[0]
    } else {
        joined(parts.drop_last()) + " "@ + parts.last()
    }
}

/// The prefix form of an expression: literals as written, every other node
/// in parentheses with its operator (or `group`) first.
pub open spec fn printed(e: Expression) -> Seq<char>
    decreases e,
{
    match e {
        Expression::Literal(l) => value_text(l.value),
        Expression::Unary(u) => parenthesized(u.operator.lexeme@, seq![printed(u.right)]),
        Expression::Binary(b) => parenthesized(
            b.operator.lexeme@,
            seq![printed(b.left), printed(b.right)],
        ),
        Expression::Grouping(g) => parenthesized("group"@, seq![printed(g.expression)]),
    }
}

/// Prints expression trees in prefix form.
pub struct AstPrinter {}

impl AstPrinter {
    /// The prefix form of `e`.
    pub fn print(&self, e: &Expression) -> (r: String)
        ensures
            r@ == printed(*e),
        decreases e,
    {
        match e {
            Expression::Literal(l) => self.literal_text(&l.value),
            Expression::Unary(u) => {
                let right = self.print(&u.right);
                let parts = vec![right];
                assert(parts@.map_values(|p: String| p@) =~= seq![printed(u.right)]);
                self.parenthesize(u.operator.lexeme.as_str(), &parts)
            },
            Expression::Binary(b) => {
                let left = self.print(&b.left);
                let right = self.print(&b.right);
                let parts = vec![left, right];
                let ghost printed_parts = seq![printed(b.left), printed(b.right)];
                assert(parts@.map_values(|p: String| p@) =~= printed_parts);
                assert(printed_parts.drop_last() =~= seq![printed(b.left)]);
                self.parenthesize(b.operator.lexeme.as_str(), &parts)
            },
            Expression::Grouping(g) => {
                let inner = self.print(&g.expression);
                let parts = vec![inner];
                assert(parts@.map_values(|p: String| p@) =~= seq![printed(g.expression)]);
                self.parenthesize("group", &parts)
            },
        }
    }

    fn literal_text(&self, v: &Value) -> (r: String)
        ensures
            r@ == value_text(*v),
    {
        match v {
            Value::Number(s) => String::from_str(s.as_str()),
            Value::String(s) => String::from_str(s.as_str()),
            Value::True => String::from_str("true"),
            Value::False => String::from_str("false"),
            Value::Nil => String::from_str("nil"),
        }
    }

    /// `(name part part ...)`.
    fn parenthesize(&self, name: &str, parts: &Vec<String>) -> (r: String)
        ensures
            r@ == parenthesized(name@, parts@.map_values(|p: String| p@)),
    {
        let mut middle = String::new();
        let mut i: usize = 0;
        while i < parts.len()
            invariant
                i <= parts@.len(),
                middle@ == joined(parts@.subrange(0, i as int).map_values(|p: String| p@)),
            decreases parts@.len() - i,
        {
            proof {
                let done = parts@.subrange(0, i as int).map_values(|p: String| p@);
                let next = parts@.subrange(0, i + 1).map_values(|p: String| p@);
                assert(next.drop_last() =~= done);
                assert(next.last() == parts@[i as int]@);
                if i == 0 {
                    assert(next[0] == parts@[0]@);
                }
            }
            if i > 0 {
                middle = middle.concat(" ");
            }
            middle = middle.concat(parts[i].as_str());
            i = i + 1;
        }
        assert(parts@.subrange(0, parts@.len() as int) =~= parts@);
        String::from_str("(").concat(name).concat(" ").concat(middle.as_str()).concat(")")
    }
}

impl Visitor<String> for AstPrinter {
    open spec fn literal_result(&self, literal: Literal, r: String) -> bool {
        r@ == printed(Expression::Literal(literal))
    }

    open spec fn unary_result(&self, unary: Unary, r: String) -> bool {
        r@ == printed(Expression::Unary(Box::new(unary)))
    }

    open spec fn binary_result(&self, binary: Binary, r: String) -> bool {
        r@ == printed(Expression::Binary(Box::new(binary)))
    }

    open spec fn grouping_result(&self, grouping: Grouping, r: String) -> bool {
        r@ == printed(Expression::Grouping(Box::new(grouping)))
    }

    fn visit_literal(&self, literal: &Literal) -> String {
        self.literal_text(&literal.value)
    }

    fn visit_unary(&self, unary: &Unary) -> String {
        let right = self.print(&unary.right);
        let parts = vec![right];
        assert(parts@.map_values(|p: String| p@) =~= seq![printed(unary.right)]);
        self.parenthesize(unary.operator.lexeme.as_str(), &parts)
    }

    fn visit_binary(&self, binary: &Binary) -> String {
        let left = self.print(&binary.left);
        let right = self.print(&binary.right);
        let parts = vec![left, right];
        let ghost printed_parts = seq![printed(binary.left), printed(binary.right)];
        assert(parts@.map_values(|p: String| p@) =~= printed_parts);
        assert(printed_parts.drop_last() =~= seq![printed(binary.left)]);
        self.parenthesize(binary.operator.lexeme.as_str(), &parts)
    }

    fn visit_grouping(&self, grouping: &Grouping) -> String {
        let inner = self.print(&grouping.expression);
        let parts = vec![inner];
        assert(parts@.map_values(|p: String| p@) =~= seq![printed(grouping.expression)]);
        self.parenthesize("group", &parts)
    }
}

} // verus!
