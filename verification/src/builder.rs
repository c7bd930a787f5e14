//! Building a filter from a parsed expression.
//!
//! The parser hands over a tree of labelled nodes: comparisons, each with
//! the tokens of its field name and its values, and groups of terms joined
//! by `AND` and `OR`. The builder looks each field up in the catalog, reads
//! the values as the field's type asks, and joins the terms, `AND` before
//! `OR`.

use crate::catalog::texts;
use crate::catalog::FacetType;
use crate::catalog::FieldsIdsMap;
use crate::condition::FacetCondition;
use crate::condition::FacetStringOperator;
use crate::number::FacetNumberOperator;
use crate::number::FloatKey;
use std::collections::HashMap;
use vstd::prelude::*;

verus! {

broadcast use vstd::std_specs::hash::group_hash_axioms;

/// A stretch of the source text, from the byte `start` up to the byte
/// `end`.
#[derive(Debug, Copy, Clone, PartialEq, Eq)]
pub struct Span {
    pub start: usize,
    pub end: usize,
}

/// A field name or a value as the source has it: its text, where it
/// stands, and the float that the text reads as, if it reads as one that is
/// not a NaN.
#[derive(Debug, Clone, PartialEq)]
pub struct Token {
    pub text: String,
    pub span: Span,
    pub float: Option<FloatKey>,
}

/// What joins two terms.
#[derive(Debug, Copy, Clone, PartialEq, Eq)]
pub enum Operation {
    Or,
    And,
}

/// A field compared with one value.
#[derive(Debug, Clone, PartialEq)]
pub struct Comparison {
    pub span: Span,
    pub key: Token,
    pub value: Token,
}

/// A field compared with two values: `key from TO to`.
#[derive(Debug, Clone, PartialEq)]
pub struct Range {
    pub span: Span,
    pub key: Token,
    pub from: Token,
    pub to: Token,
}

/// A node of the parsed expression, by the rule that made it.
#[derive(Debug, PartialEq)]
pub enum Pair {
    Prgm(Pairs),
    Term(Pairs),
    Not(Pairs),
    Between(Range),
    Eq(Comparison),
    Neq(Comparison),
    Greater(Comparison),
    Geq(Comparison),
    Less(Comparison),
    Leq(Comparison),
}

/// Terms in a row: a first one, then each further one with what joins it
/// to those before.
#[derive(Debug, PartialEq)]
pub struct Pairs {
    pub first: Box<Pair>,
    pub rest: Vec<(Operation, Pair)>,
}

/// Why an expression is not a filter on the fields of the catalog.
#[derive(Debug, Clone, PartialEq)]
pub enum BuildError {
    /// No field has the name; `known` lists the names that fields have.
    UnknownAttribute { name: String, known: Vec<String>, span: Span },
    /// The field is not faceted; `faceted` lists the names of those that
    /// are.
    NotFaceted { name: String, faceted: Vec<String>, span: Span },
    /// A string field stands with an operator other than `=` and `!=`.
    InvalidOperatorOnString { span: Span },
    /// A value does not read as the type of its field.
    InvalidLiteral { span: Span, expected: FacetType, got: String },
}

/// A [`BuildError`] with texts in place of strings.
pub enum BuildErrorView {
    UnknownAttribute { name: Seq<char>, known: Seq<Seq<char>>, span: Span },
    NotFaceted { name: Seq<char>, faceted: Seq<Seq<char>>, span: Span },
    InvalidOperatorOnString { span: Span },
    InvalidLiteral { span: Span, expected: FacetType, got: Seq<char> },
}

impl View for BuildError {
    type V = BuildErrorView;

    open spec fn view(&self) -> BuildErrorView {
        match *self {
            BuildError::UnknownAttribute { name, known, span } => BuildErrorView::UnknownAttribute {
                name: name@,
                known: texts(known@),
                span,
            },
            BuildError::NotFaceted { name, faceted, span } => BuildErrorView::NotFaceted {
                name: name@,
                faceted: texts(faceted@),
                span,
            },
            BuildError::InvalidOperatorOnString { span } => BuildErrorView::InvalidOperatorOnString {
                span,
            },
            BuildError::InvalidLiteral { span, expected, got } => BuildErrorView::InvalidLiteral {
                span,
                expected,
                got: got@,
            },
        }
    }
}

/// An outcome of the builder with the error, if any, by its view.
pub open spec fn shown<T>(outcome: Result<T, BuildError>) -> Result<T, BuildErrorView> {
    match outcome {
        Ok(built) => Ok(built),
        Err(error) => Err(error@),
    }
}

/// The digit that a character is, if it is one of `0` to `9`.
pub open spec fn digit_of(c: char) -> Option<int> {
    if c == '0' {
        Some(0)
    } else if c == '1' {
        Some(1)
    } else if c == '2' {
        Some(2)
    } else if c == '3' {
        Some(3)
    } else if c == '4' {
        Some(4)
    } else if c == '5' {
        Some(5)
    } else if c == '6' {
        Some(6)
    } else if c == '7' {
        Some(7)
    } else if c == '8' {
        Some(8)
    } else if c == '9' {
        Some(9)
    } else {
        None
    }
}

/// The number that a run of digits stands for in decimal notation; none
/// for an empty run, or one that holds another character.
pub open spec fn decimal_of(digits: Seq<char>) -> Option<int>
    decreases digits.len(),
{
    if digits.len() == 0 {
        None
    } else {
        match digit_of(digits.last()) {
            None => None,
            Some(unit) => if digits.len() == 1 {
                Some(unit)
            } else {
                match decimal_of(digits.drop_last()) {
                    Some(tens) => Some(10 * tens + unit),
                    None => None,
                }
            },
        }
    }
}

/// The integer that a text reads as: an optional `+` or `-`, then decimal
/// digits and nothing else, of a value that fits 64 bits.
pub open spec fn integer_of(text: Seq<char>) -> Option<i64> {
    let negative = text.len() > 0 && text[0] == '-';
    let signed = text.len() > 0 && (text[0] == '-' || text[0] == '+');
    let digits = if signed {
        text.skip(1)
    } else {
        text
    };
    match decimal_of(digits) {
        Some(number) => {
            let value = if negative {
                -number
            } else {
                number
            };
            if i64::MIN <= value <= i64::MAX {
                Some(value as i64)
            } else {
                None
            }
        },
        None => None,
    }
}

/// `str::parse::<i64>`: the integer that the text reads as, `None` where
/// the parse fails. It fails on an empty text, on a character that is no
/// decimal digit (but a sign in front), and on a value out of range.
#[verifier::external_body]
fn parse_integer(text: &String) -> (parsed: Option<i64>)
    ensures
        parsed == integer_of(text@),
{
    text.parse::<i64>().ok()
}

/// An ordering comparison.
#[derive(Debug, Copy, Clone, PartialEq, Eq)]
pub enum Relation {
    Greater,
    GreaterOrEqual,
    Lower,
    LowerOrEqual,
}

impl Relation {
    /// The numeric operator of the relation with an operand.
    pub open spec fn with<T>(self, operand: T) -> FacetNumberOperator<T> {
        match self {
            Relation::Greater => FacetNumberOperator::GreaterThan(operand),
            Relation::GreaterOrEqual => FacetNumberOperator::GreaterThanOrEqual(operand),
            Relation::Lower => FacetNumberOperator::LowerThan(operand),
            Relation::LowerOrEqual => FacetNumberOperator::LowerThanOrEqual(operand),
        }
    }

    /// The numeric operator of the relation with an operand.
    pub fn operator<T>(self, operand: T) -> (operator: FacetNumberOperator<T>)
        ensures
            operator == self.with(operand),
    {
        match self {
            Relation::Greater => FacetNumberOperator::GreaterThan(operand),
            Relation::GreaterOrEqual => FacetNumberOperator::GreaterThanOrEqual(operand),
            Relation::Lower => FacetNumberOperator::LowerThan(operand),
            Relation::LowerOrEqual => FacetNumberOperator::LowerThanOrEqual(operand),
        }
    }
}

/// The id and the type of the field that a token names: the field must be
/// in the catalog, and faceted.
pub open spec fn field_of(fields: FieldsIdsMap, faceted: Map<u8, FacetType>, key: Token) -> Result<
    (u8, FacetType),
    BuildErrorView,
> {
    match fields.id_of(key.text@) {
        None => Err(
            BuildErrorView::UnknownAttribute {
                name: key.text@,
                known: fields.all_names(),
                span: key.span,
            },
        ),
        Some(field_id) => if faceted.contains_key(field_id) {
            Ok((field_id, faceted[field_id]))
        } else {
            Err(
                BuildErrorView::NotFaceted {
                    name: key.text@,
                    faceted: fields.faceted_names(faceted),
                    span: key.span,
                },
            )
        },
    }
}

/// A token read as an integer, given what its text parses to.
pub open spec fn integer_read(token: Token, parsed: Option<i64>) -> Result<i64, BuildErrorView> {
    match parsed {
        Some(value) => Ok(value),
        None => Err(
            BuildErrorView::InvalidLiteral {
                span: token.span,
                expected: FacetType::Integer,
                got: token.text@,
            },
        ),
    }
}

/// A token read as a float.
pub open spec fn float_read(token: Token) -> Result<FloatKey, BuildErrorView> {
    match token.float {
        Some(value) => Ok(value),
        None => Err(
            BuildErrorView::InvalidLiteral {
                span: token.span,
                expected: FacetType::Float,
                got: token.text@,
            },
        ),
    }
}

/// The condition of an ordering comparison. A string field has none.
pub open spec fn compared(
    fields: FieldsIdsMap,
    faceted: Map<u8, FacetType>,
    relation: Relation,
    item: Comparison,
) -> Result<FacetCondition, BuildErrorView> {
    match field_of(fields, faceted, item.key) {
        Err(error) => Err(error),
        Ok((field_id, facet_type)) => match facet_type {
            FacetType::Integer => match integer_read(item.value, integer_of(item.value.text@)) {
                Ok(value) => Ok(FacetCondition::OperatorI64(field_id, relation.with(value))),
                Err(error) => Err(error),
            },
            FacetType::Float => match float_read(item.value) {
                Ok(value) => Ok(FacetCondition::OperatorF64(field_id, relation.with(value))),
                Err(error) => Err(error),
            },
            FacetType::String => Err(BuildErrorView::InvalidOperatorOnString { span: item.span }),
        },
    }
}

/// The condition of `key = value`.
pub open spec fn equated(
    fields: FieldsIdsMap,
    faceted: Map<u8, FacetType>,
    item: Comparison,
) -> Result<FacetCondition, BuildErrorView> {
    match field_of(fields, faceted, item.key) {
        Err(error) => Err(error),
        Ok((field_id, facet_type)) => match facet_type {
            FacetType::Integer => match integer_read(item.value, integer_of(item.value.text@)) {
                Ok(value) => Ok(
                    FacetCondition::OperatorI64(field_id, FacetNumberOperator::Equal(value)),
                ),
                Err(error) => Err(error),
            },
            FacetType::Float => match float_read(item.value) {
                Ok(value) => Ok(
                    FacetCondition::OperatorF64(field_id, FacetNumberOperator::Equal(value)),
                ),
                Err(error) => Err(error),
            },
            FacetType::String => Ok(
                FacetCondition::OperatorString(
                    field_id,
                    FacetStringOperator::Equal(item.value.text),
                ),
            ),
        },
    }
}

/// The condition of `key from TO to`; the two values are taken as they
/// stand, also where the first is the greater. A string field has none.
pub open spec fn ranged(fields: FieldsIdsMap, faceted: Map<u8, FacetType>, item: Range) -> Result<
    FacetCondition,
    BuildErrorView,
> {
    match field_of(fields, faceted, item.key) {
        Err(error) => Err(error),
        Ok((field_id, facet_type)) => match facet_type {
            FacetType::Integer => match integer_read(item.from, integer_of(item.from.text@)) {
                Err(error) => Err(error),
                Ok(from) => match integer_read(item.to, integer_of(item.to.text@)) {
                    Err(error) => Err(error),
                    Ok(to) => Ok(
                        FacetCondition::OperatorI64(field_id, FacetNumberOperator::Between(from, to)),
                    ),
                },
            },
            FacetType::Float => match float_read(item.from) {
                Err(error) => Err(error),
                Ok(from) => match float_read(item.to) {
                    Err(error) => Err(error),
                    Ok(to) => Ok(
                        FacetCondition::OperatorF64(field_id, FacetNumberOperator::Between(from, to)),
                    ),
                },
            },
            FacetType::String => Err(BuildErrorView::InvalidOperatorOnString { span: item.span }),
        },
    }
}

/// The negation of a condition, where there is one.
pub open spec fn negated(inner: Result<FacetCondition, BuildErrorView>) -> Result<
    FacetCondition,
    BuildErrorView,
> {
    match inner {
        Ok(condition) => Ok(FacetCondition::Not(Box::new(condition))),
        Err(error) => Err(error),
    }
}

/// A run of terms joined by `AND`, added as one more alternative to those
/// gathered before it.
pub open spec fn closed_run(alternatives: Option<FacetCondition>, run: FacetCondition) -> FacetCondition {
    match alternatives {
        None => run,
        Some(before) => FacetCondition::Or(Box::new(before), Box::new(run)),
    }
}

/// The condition of a node.
///
/// `key != value` is the negation of `key = value`. The nodes of the rules
/// `prgm` and `term` stand for the terms that they hold, and a `not` node
/// for their negation.
pub open spec fn built_pair(fields: FieldsIdsMap, faceted: Map<u8, FacetType>, pair: Pair) -> Result<
    FacetCondition,
    BuildErrorView,
>
    decreases pair, 0int,
{
    match pair {
        Pair::Between(item) => ranged(fields, faceted, item),
        Pair::Eq(item) => equated(fields, faceted, item),
        Pair::Neq(item) => negated(equated(fields, faceted, item)),
        Pair::Greater(item) => compared(fields, faceted, Relation::Greater, item),
        Pair::Geq(item) => compared(fields, faceted, Relation::GreaterOrEqual, item),
        Pair::Less(item) => compared(fields, faceted, Relation::Lower, item),
        Pair::Leq(item) => compared(fields, faceted, Relation::LowerOrEqual, item),
        Pair::Prgm(inner) => built_pairs(fields, faceted, inner),
        Pair::Term(inner) => built_pairs(fields, faceted, inner),
        Pair::Not(inner) => negated(built_pairs(fields, faceted, inner)),
    }
}

/// The condition of terms in a row, from the term at `position` on, given
/// the alternatives gathered so far and the run of terms joined by `AND`
/// that is under way.
pub open spec fn climbed(
    fields: FieldsIdsMap,
    faceted: Map<u8, FacetType>,
    pairs: Pairs,
    position: int,
    alternatives: Option<FacetCondition>,
    run: FacetCondition,
) -> Result<FacetCondition, BuildErrorView>
    decreases pairs, pairs.rest.len() - position,
{
    if 0 <= position < pairs.rest.len() {
        match built_pair(fields, faceted, pairs.rest[position].1) {
            Err(error) => Err(error),
            Ok(term) => match pairs.rest[position].0 {
                Operation::And => climbed(
                    fields,
                    faceted,
                    pairs,
                    position + 1,
                    alternatives,
                    FacetCondition::And(Box::new(run), Box::new(term)),
                ),
                Operation::Or => climbed(
                    fields,
                    faceted,
                    pairs,
                    position + 1,
                    Some(closed_run(alternatives, run)),
                    term,
                ),
            },
        }
    } else {
        Ok(closed_run(alternatives, run))
    }
}

/// The condition of terms in a row.
///
/// `AND` binds tighter than `OR`, and both join to the left: the terms
/// fall into runs joined by `AND`, and the runs are alternatives. Where a
/// term has no condition, the row has none: the error is that of the first
/// such term.
pub open spec fn built_pairs(
    fields: FieldsIdsMap,
    faceted: Map<u8, FacetType>,
    pairs: Pairs,
) -> Result<FacetCondition, BuildErrorView>
    decreases pairs, pairs.rest.len() + 1,
{
    match built_pair(fields, faceted, *pairs.first) {
        Err(error) => Err(error),
        Ok(first) => climbed(fields, faceted, pairs, 0, None, first),
    }
}

/// Looks up the field that a token names: its id, and the type of its
/// facet.
pub fn get_field_id_facet_type(
    fields_ids_map: &FieldsIdsMap,
    faceted_fields: &HashMap<u8, FacetType>,
    key: &Token,
) -> (found: Result<(u8, FacetType), BuildError>)
    ensures
        shown(found) == field_of(*fields_ids_map, faceted_fields@, *key),
{
    let field_id = match fields_ids_map.id(&key.text) {
        Some(field_id) => field_id,
        None => {
            return Err(
                BuildError::UnknownAttribute {
                    name: key.text.clone(),
                    known: fields_ids_map.names(),
                    span: key.span,
                },
            );
        },
    };
    match faceted_fields.get(&field_id) {
        Some(facet_type) => Ok((field_id, *facet_type)),
        None => Err(
            BuildError::NotFaceted {
                name: key.text.clone(),
                faceted: fields_ids_map.names_of_faceted(faceted_fields),
                span: key.span,
            },
        ),
    }
}

/// Reads a token as an integer, given what its text parses to: the value,
/// or that the token is no integer.
pub fn integer_value(token: &Token, parsed: Option<i64>) -> (read: Result<i64, BuildError>)
    ensures
        shown(read) == integer_read(*token, parsed),
{
    match parsed {
        Some(value) => Ok(value),
        None => Err(
            BuildError::InvalidLiteral {
                span: token.span,
                expected: FacetType::Integer,
                got: token.text.clone(),
            },
        ),
    }
}

/// Reads a token as a float: the value that the token carries, or that the
/// token is no float.
pub fn float_value(token: &Token) -> (read: Result<FloatKey, BuildError>)
    ensures
        shown(read) == float_read(*token),
{
    match token.float {
        Some(value) => Ok(value),
        None => Err(
            BuildError::InvalidLiteral {
                span: token.span,
                expected: FacetType::Float,
                got: token.text.clone(),
            },
        ),
    }
}

/// Reads a token as an integer.
fn integer_operand(token: &Token) -> (read: Result<i64, BuildError>)
    ensures
        shown(read) == integer_read(*token, integer_of(token.text@)),
{
    integer_value(token, parse_integer(&token.text))
}

/// Builds the condition of an ordering comparison.
fn ordered(
    fields_ids_map: &FieldsIdsMap,
    faceted_fields: &HashMap<u8, FacetType>,
    relation: Relation,
    item: &Comparison,
) -> (built: Result<FacetCondition, BuildError>)
    ensures
        shown(built) == compared(*fields_ids_map, faceted_fields@, relation, *item),
{
    let (fid, ftype) = match get_field_id_facet_type(fields_ids_map, faceted_fields, &item.key) {
        Ok(found) => found,
        Err(error) => {
            return Err(error);
        },
    };
    match ftype {
        FacetType::Integer => match integer_operand(&item.value) {
            Ok(value) => Ok(FacetCondition::OperatorI64(fid, relation.operator(value))),
            Err(error) => Err(error),
        },
        FacetType::Float => match float_value(&item.value) {
            Ok(value) => Ok(FacetCondition::OperatorF64(fid, relation.operator(value))),
            Err(error) => Err(error),
        },
        FacetType::String => Err(BuildError::InvalidOperatorOnString { span: item.span }),
    }
}

impl FacetCondition {
    /// Builds the filter of a parsed expression.
    pub fn from_pairs(
        fim: &FieldsIdsMap,
        ff: &HashMap<u8, FacetType>,
        expression: &Pairs,
    ) -> (built: Result<FacetCondition, BuildError>)
        ensures
            shown(built) == built_pairs(*fim, ff@, *expression),
        decreases expression, expression.rest.len() + 1,
    {
        let first = match FacetCondition::from_pair(fim, ff, &expression.first) {
            Ok(first) => first,
            Err(error) => {
                return Err(error);
            },
        };
        let mut alternatives: Option<FacetCondition> = None;
        let mut run: FacetCondition = first;
        let mut position: usize = 0;
        while position < expression.rest.len()
            invariant
                0 <= position <= expression.rest.len(),
                built_pairs(*fim, ff@, *expression) == climbed(
                    *fim,
                    ff@,
                    *expression,
                    position as int,
                    alternatives,
                    run,
                ),
            decreases expression.rest.len() - position,
        {
            let (operation, pair) = &expression.rest[position];
            let term = match FacetCondition::from_pair(fim, ff, pair) {
                Ok(term) => term,
                Err(error) => {
                    return Err(error);
                },
            };
            match operation {
                Operation::And => {
                    run = FacetCondition::And(Box::new(run), Box::new(term));
                },
                Operation::Or => {
                    alternatives = Some(FacetCondition::close_run(alternatives, run));
                    run = term;
                },
            }
            position += 1;
        }
        Ok(FacetCondition::close_run(alternatives, run))
    }

    /// Adds a run of terms joined by `AND` to the alternatives before it.
    fn close_run(alternatives: Option<FacetCondition>, run: FacetCondition) -> (joined:
        FacetCondition)
        ensures
            joined == closed_run(alternatives, run),
    {
        match alternatives {
            None => run,
            Some(before) => FacetCondition::Or(Box::new(before), Box::new(run)),
        }
    }

    /// Builds the condition of one node.
    pub fn from_pair(fim: &FieldsIdsMap, ff: &HashMap<u8, FacetType>, pair: &Pair) -> (built: Result<
        FacetCondition,
        BuildError,
    >)
        ensures
            shown(built) == built_pair(*fim, ff@, *pair),
        decreases pair, 0int,
    {
        match pair {
            Pair::Between(item) => FacetCondition::between(fim, ff, item),
            Pair::Eq(item) => FacetCondition::equal(fim, ff, item),
            Pair::Neq(item) => match FacetCondition::equal(fim, ff, item) {
                Ok(condition) => Ok(FacetCondition::Not(Box::new(condition))),
                Err(error) => Err(error),
            },
            Pair::Greater(item) => FacetCondition::greater_than(fim, ff, item),
            Pair::Geq(item) => FacetCondition::greater_than_or_equal(fim, ff, item),
            Pair::Less(item) => FacetCondition::lower_than(fim, ff, item),
            Pair::Leq(item) => FacetCondition::lower_than_or_equal(fim, ff, item),
            Pair::Prgm(inner) => FacetCondition::from_pairs(fim, ff, inner),
            Pair::Term(inner) => FacetCondition::from_pairs(fim, ff, inner),
            Pair::Not(inner) => match FacetCondition::from_pairs(fim, ff, inner) {
                Ok(condition) => Ok(FacetCondition::Not(Box::new(condition))),
                Err(error) => Err(error),
            },
        }
    }

    /// Builds the condition of `key from TO to`.
    pub fn between(
        fields_ids_map: &FieldsIdsMap,
        faceted_fields: &HashMap<u8, FacetType>,
        item: &Range,
    ) -> (built: Result<FacetCondition, BuildError>)
        ensures
            shown(built) == ranged(*fields_ids_map, faceted_fields@, *item),
    {
        let (fid, ftype) = match get_field_id_facet_type(fields_ids_map, faceted_fields, &item.key) {
            Ok(found) => found,
            Err(error) => {
                return Err(error);
            },
        };
        match ftype {
            FacetType::Integer => {
                let lvalue = match integer_operand(&item.from) {
                    Ok(value) => value,
                    Err(error) => {
                        return Err(error);
                    },
                };
                let rvalue = match integer_operand(&item.to) {
                    Ok(value) => value,
                    Err(error) => {
                        return Err(error);
                    },
                };
                Ok(FacetCondition::OperatorI64(fid, FacetNumberOperator::Between(lvalue, rvalue)))
            },
            FacetType::Float => {
                let lvalue = match float_value(&item.from) {
                    Ok(value) => value,
                    Err(error) => {
                        return Err(error);
                    },
                };
                let rvalue = match float_value(&item.to) {
                    Ok(value) => value,
                    Err(error) => {
                        return Err(error);
                    },
                };
                Ok(FacetCondition::OperatorF64(fid, FacetNumberOperator::Between(lvalue, rvalue)))
            },
            FacetType::String => Err(BuildError::InvalidOperatorOnString { span: item.span }),
        }
    }

    /// Builds the condition of `key = value`.
    pub fn equal(
        fields_ids_map: &FieldsIdsMap,
        faceted_fields: &HashMap<u8, FacetType>,
        item: &Comparison,
    ) -> (built: Result<FacetCondition, BuildError>)
        ensures
            shown(built) == equated(*fields_ids_map, faceted_fields@, *item),
    {
        let (fid, ftype) = match get_field_id_facet_type(fields_ids_map, faceted_fields, &item.key) {
            Ok(found) => found,
            Err(error) => {
                return Err(error);
            },
        };
        match ftype {
            FacetType::Integer => match integer_operand(&item.value) {
                Ok(value) => Ok(
                    FacetCondition::OperatorI64(fid, FacetNumberOperator::Equal(value)),
                ),
                Err(error) => Err(error),
            },
            FacetType::Float => match float_value(&item.value) {
                Ok(value) => Ok(
                    FacetCondition::OperatorF64(fid, FacetNumberOperator::Equal(value)),
                ),
                Err(error) => Err(error),
            },
            FacetType::String => Ok(
                FacetCondition::OperatorString(
                    fid,
                    FacetStringOperator::Equal(item.value.text.clone()),
                ),
            ),
        }
    }

    /// Builds the condition of `key > value`.
    pub fn greater_than(
        fields_ids_map: &FieldsIdsMap,
        faceted_fields: &HashMap<u8, FacetType>,
        item: &Comparison,
    ) -> (built: Result<FacetCondition, BuildError>)
        ensures
            shown(built) == compared(*fields_ids_map, faceted_fields@, Relation::Greater, *item),
    {
        ordered(fields_ids_map, faceted_fields, Relation::Greater, item)
    }

    /// Builds the condition of `key >= value`.
    pub fn greater_than_or_equal(
        fields_ids_map: &FieldsIdsMap,
        faceted_fields: &HashMap<u8, FacetType>,
        item: &Comparison,
    ) -> (built: Result<FacetCondition, BuildError>)
        ensures
            shown(built) == compared(
                *fields_ids_map,
                faceted_fields@,
                Relation::GreaterOrEqual,
                *item,
            ),
    {
        ordered(fields_ids_map, faceted_fields, Relation::GreaterOrEqual, item)
    }

    /// Builds the condition of `key < value`.
    pub fn lower_than(
        fields_ids_map: &FieldsIdsMap,
        faceted_fields: &HashMap<u8, FacetType>,
        item: &Comparison,
    ) -> (built: Result<FacetCondition, BuildError>)
        ensures
            shown(built) == compared(*fields_ids_map, faceted_fields@, Relation::Lower, *item),
    {
        ordered(fields_ids_map, faceted_fields, Relation::Lower, item)
    }

    /// Builds the condition of `key <= value`.
    pub fn lower_than_or_equal(
        fields_ids_map: &FieldsIdsMap,
        faceted_fields: &HashMap<u8, FacetType>,
        item: &Comparison,
    ) -> (built: Result<FacetCondition, BuildError>)
        ensures
            shown(built) == compared(
                *fields_ids_map,
                faceted_fields@,
                Relation::LowerOrEqual,
                *item,
            ),
    {
        ordered(fields_ids_map, faceted_fields, Relation::LowerOrEqual, item)
    }
}

} // verus!
