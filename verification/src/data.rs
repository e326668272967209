//! The values that evaluation moves about.
use std::rc::Rc;

use chrono::{NaiveDateTime, Utc};
use im_rc::HashMap;
use vstd::prelude::*;

verus! {

/// `chrono::NaiveDateTime`: a date and a time of day. It is carried through unread.
#[verifier::external_type_specification]
#[verifier::external_body]
pub struct ExNaiveDateTime(NaiveDateTime);

/// `im_rc::HashMap`: a persistent hash map.
#[verifier::external_type_specification]
#[verifier::external_body]
#[verifier::reject_recursive_types(K)]
#[verifier::reject_recursive_types(V)]
#[verifier::reject_recursive_types(S)]
pub struct ExHashMap<K, V, S>(HashMap<K, V, S>);

/// An interval, by its number.
#[derive(Clone, Copy, Debug, PartialEq, Eq)]
pub struct Interval(pub u64);

/// A literal that still has no data type. Those that evaluation never looks at are held by
/// their number.
#[derive(Clone, Copy, Debug, PartialEq, Eq)]
pub enum Literal {
    Null,
    Boolean(bool),
    Other(u64),
}

/// A value of some data type. Those that evaluation neither makes nor looks at are held by
/// their number.
#[derive(Clone, Copy, Debug, PartialEq, Eq)]
pub enum Value {
    Null,
    Bool(bool),
    Timestamp(NaiveDateTime),
    Interval(Interval),
    Other(u64),
}

/// What an expression evaluates to.
#[derive(Clone, Copy, Debug, PartialEq, Eq)]
pub enum Evaluated {
    Literal(Literal),
    Value(Value),
}

impl Value {
    /// Whether the value is `NULL`.
    pub fn is_null(&self) -> (null: bool)
        ensures
            null == (*self is Null),
    {
        matches!(self, Value::Null)
    }
}

impl Evaluated {
    /// Whether this is `NULL`, be it a value or a literal.
    pub open spec fn null(self) -> bool {
        self == Evaluated::Value(Value::Null) || self == Evaluated::Literal(Literal::Null)
    }

    /// Whether this is `NULL`, be it a value or a literal.
    pub fn is_null(&self) -> (null: bool)
        ensures
            null == self.null(),
    {
        match self {
            Evaluated::Value(value) => value.is_null(),
            Evaluated::Literal(literal) => matches!(literal, Literal::Null),
        }
    }
}

/// The values that a map holds for the aggregates, by the aggregate's number.
pub uninterp spec fn aggregate_values(map: HashMap<u64, Value>) -> Map<u64, Value>;

/// The values that a map, where there is one, holds for the aggregates.
pub open spec fn aggregates_view(map: Option<Rc<HashMap<u64, Value>>>) -> Option<
    Map<u64, Value>,
> {
    match map {
        Some(map) => Some(aggregate_values(*map)),
        None => None,
    }
}

/// `im_rc::HashMap::get`: the value that the map holds under the key, if it holds one.
#[verifier::external_body]
pub(crate) fn aggregate_value(map: &HashMap<u64, Value>, key: u64) -> (value: Option<Value>)
    ensures
        value == (if aggregate_values(*map).contains_key(key) {
            Some(aggregate_values(*map)[key])
        } else {
            None
        }),
{
    map.get(&key).copied()
}

/// `std::rc::Rc::clone`: another pointer to the same value.
#[verifier::external_body]
pub(crate) fn share<T>(pointer: &Rc<T>) -> (copy: Rc<T>)
    ensures
        copy == *pointer,
{
    Rc::clone(pointer)
}

/// `chrono::Utc::now`, taken without its zone: what the clock of the machine shows. Nothing is
/// claimed of it, since every call may give another result. It panics where that clock stands
/// before 1970.
#[verifier::external_body]
pub(crate) fn utc_now() -> (now: NaiveDateTime) {
    Utc::now().naive_utc()
}

} // verus!
