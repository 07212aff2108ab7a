//! Deciding whether a row meets a predicate.
//!
//! A predicate is a tree of `AND` and `OR` over comparisons; a comparison has a column on
//! its left and a literal on its right. Every field is text. `=` compares texts; the four
//! ordering operators read both sides as integers.

use vstd::prelude::*;

use crate::ast::{BinaryOperator, Expr, Value};
use crate::error::EngineError;
use crate::number::{parse_i32, parse_int};

verus! {

/// The text that a literal is stored and compared as.
pub open spec fn value_text(value: Value) -> Seq<char> {
    match value {
        Value::Number(digits) => digits@,
        Value::SingleQuotedString(text) => text@,
        Value::DoubleQuotedString(text) => text@,
        Value::EscapedStringLiteral(text) => text@,
        Value::SingleQuotedByteStringLiteral(text) => text@,
        Value::DoubleQuotedByteStringLiteral(text) => text@,
        Value::RawStringLiteral(text) => text@,
        Value::NationalStringLiteral(text) => text@,
        Value::HexStringLiteral(text) => text@,
        Value::Boolean(flag) => if flag {
            "true"@
        } else {
            "false"@
        },
        Value::Null => Seq::empty(),
    }
}

/// The position that a header gives to the column called `name`. Where several columns
/// share the name, the last of them is meant.
pub open spec fn column_position(header: Seq<Seq<char>>, name: Seq<char>) -> Option<int>
    decreases header.len(),
{
    if header.len() == 0 {
        None
    } else if header.last() == name {
        Some(header.len() - 1)
    } else {
        column_position(header.drop_last(), name)
    }
}

/// What a comparison of a field with a literal comes to.
pub open spec fn comparison(op: BinaryOperator, field: Seq<char>, literal: Seq<char>) -> Result<
    bool,
    EngineError,
> {
    match op {
        BinaryOperator::Eq => Ok(field == literal),
        BinaryOperator::Gt | BinaryOperator::Lt | BinaryOperator::GtEq | BinaryOperator::LtEq => {
            match (parse_int(field), parse_int(literal)) {
                (Some(stored), Some(given)) => Ok(
                    match op {
                        BinaryOperator::Gt => stored > given,
                        BinaryOperator::Lt => stored < given,
                        BinaryOperator::GtEq => stored >= given,
                        _ => stored <= given,
                    },
                ),
                _ => Err(EngineError::TypeMismatch),
            }
        },
        _ => Err(EngineError::UnsupportedOperator),
    }
}

/// What two truth values joined by `op` come to.
pub open spec fn connective(op: BinaryOperator, left: bool, right: bool) -> Result<
    bool,
    EngineError,
> {
    match op {
        BinaryOperator::And => Ok(left && right),
        BinaryOperator::Or => Ok(left || right),
        _ => Err(EngineError::UnsupportedOperator),
    }
}

/// Whether `row` meets `expr`, for a table with the given header.
///
/// A binary operation with a column on the left and a literal on the right is a
/// comparison. Any other binary operation joins the truth values of its operands, the left
/// one first; an operand that fails makes the whole fail in the same way. Anything that is
/// no binary operation is refused.
pub open spec fn evaluation(row: Seq<Seq<char>>, header: Seq<Seq<char>>, expr: Expr) -> Result<
    bool,
    EngineError,
>
    decreases expr,
{
    match expr {
        Expr::BinaryOp { left, op, right } => match (*left, *right) {
            (Expr::Identifier(name), Expr::Value(value)) => match column_position(
                header,
                name@,
            ) {
                None => Err(EngineError::UnknownColumn),
                Some(position) => if position < row.len() {
                    comparison(op, row[position], value_text(value))
                } else {
                    Err(EngineError::RecordParseError)
                },
            },
            _ => match evaluation(row, header, *left) {
                Err(error) => Err(error),
                Ok(first) => match evaluation(row, header, *right) {
                    Err(error) => Err(error),
                    Ok(second) => connective(op, first, second),
                },
            },
        },
        _ => Err(EngineError::UnsupportedExpression),
    }
}

/// Whether `row` passes an optional predicate. Without a predicate every row passes.
pub open spec fn inclusion(
    row: Seq<Seq<char>>,
    header: Seq<Seq<char>>,
    predicate: Option<Expr>,
) -> Result<bool, EngineError> {
    match predicate {
        Some(expr) => evaluation(row, header, expr),
        None => Ok(true),
    }
}

/// Writes a literal as the text it is stored and compared as.
pub fn render_value(value: &Value) -> (text: String)
    ensures
        text@ == value_text(*value),
{
    match value {
        Value::Number(digits) => digits.clone(),
        Value::SingleQuotedString(text) => text.clone(),
        Value::DoubleQuotedString(text) => text.clone(),
        Value::EscapedStringLiteral(text) => text.clone(),
        Value::SingleQuotedByteStringLiteral(text) => text.clone(),
        Value::DoubleQuotedByteStringLiteral(text) => text.clone(),
        Value::RawStringLiteral(text) => text.clone(),
        Value::NationalStringLiteral(text) => text.clone(),
        Value::HexStringLiteral(text) => text.clone(),
        Value::Boolean(flag) => if *flag {
            "true".to_owned()
        } else {
            "false".to_owned()
        },
        Value::Null => String::new(),
    }
}

/// Looks a column up in a header.
pub fn find_column(header: &Vec<String>, name: &String) -> (found: Option<usize>)
    ensures
        match found {
            Some(position) => column_position(header.deep_view(), name@) == Some(position as int)
                && position < header.len(),
            None => column_position(header.deep_view(), name@) is None,
        },
{
    let mut i = header.len();
    proof {
        assert(header.deep_view().take(i as int) =~= header.deep_view());
    }
    while i > 0
        invariant
            i <= header.len(),
            column_position(header.deep_view(), name@) == column_position(
                header.deep_view().take(i as int),
                name@,
            ),
        decreases i,
    {
        proof {
            let prefix = header.deep_view().take(i as int);
            assert(prefix.last() == header[i - 1]@);
            assert(prefix.drop_last() =~= header.deep_view().take(i - 1));
        }
        i = i - 1;
        if header[i] == *name {
            return Some(i);
        }
    }
    proof {
        assert(header.deep_view().take(0).len() == 0);
    }
    None
}

/// Compares a field with a literal.
pub fn compare_field(op: BinaryOperator, field: &String, literal: &String) -> (outcome: Result<
    bool,
    EngineError,
>)
    ensures
        outcome == comparison(op, field@, literal@),
{
    match op {
        BinaryOperator::Eq => Ok(*field == *literal),
        BinaryOperator::Gt | BinaryOperator::Lt | BinaryOperator::GtEq | BinaryOperator::LtEq => {
            let stored = match parse_i32(field.as_str()) {
                Some(number) => number,
                None => {
                    return Err(EngineError::TypeMismatch);
                },
            };
            let given = match parse_i32(literal.as_str()) {
                Some(number) => number,
                None => {
                    return Err(EngineError::TypeMismatch);
                },
            };
            Ok(
                match op {
                    BinaryOperator::Gt => stored > given,
                    BinaryOperator::Lt => stored < given,
                    BinaryOperator::GtEq => stored >= given,
                    _ => stored <= given,
                },
            )
        },
        _ => Err(EngineError::UnsupportedOperator),
    }
}

/// Decides whether `row` meets the predicate `expr`.
pub fn evaluate_binary_op(row: &Vec<String>, header: &Vec<String>, expr: &Expr) -> (outcome:
    Result<bool, EngineError>)
    ensures
        outcome == evaluation(row.deep_view(), header.deep_view(), *expr),
    decreases expr,
{
    match expr {
        Expr::BinaryOp { left, op, right } => {
            match (&**left, &**right) {
                (Expr::Identifier(name), Expr::Value(value)) => {
                    match find_column(header, name) {
                        None => Err(EngineError::UnknownColumn),
                        Some(position) => {
                            if position < row.len() {
                                let literal = render_value(value);
                                compare_field(*op, &row[position], &literal)
                            } else {
                                Err(EngineError::RecordParseError)
                            }
                        },
                    }
                },
                _ => {
                    let first = match evaluate_binary_op(row, header, left) {
                        Ok(truth) => truth,
                        Err(error) => {
                            return Err(error);
                        },
                    };
                    let second = match evaluate_binary_op(row, header, right) {
                        Ok(truth) => truth,
                        Err(error) => {
                            return Err(error);
                        },
                    };
                    match op {
                        BinaryOperator::And => Ok(first && second),
                        BinaryOperator::Or => Ok(first || second),
                        _ => Err(EngineError::UnsupportedOperator),
                    }
                },
            }
        },
        _ => Err(EngineError::UnsupportedExpression),
    }
}

/// Decides whether `row` passes an optional predicate.
pub fn is_row_included(
    row: &Vec<String>,
    header: &Vec<String>,
    logical_expression: &Option<Expr>,
) -> (outcome: Result<bool, EngineError>)
    ensures
        outcome == inclusion(row.deep_view(), header.deep_view(), *logical_expression),
{
    match logical_expression {
        Some(expr) => evaluate_binary_op(row, header, expr),
        None => Ok(true),
    }
}

} // verus!
