//! The closed value-type algebra: structural validation and typed extraction
//! of loosely-typed field values.

use vstd::prelude::*;
use vstd::string::StringExecFns;
use crate::error::Error;
use crate::ident::{Identifier, uuid_accepts, uuid_parse_ok};

verus! {

/// A loosely-typed runtime value, as it arrives from an untrusted caller.
#[derive(Debug)]
pub enum Value {
    Null,
    Bool(bool),
    Number(i64),
    String(String),
    Array(Vec<Value>),
    Object(Vec<(String, Value)>),
}

impl DeepView for Value {
    type V = Value;

    open spec fn deep_view(&self) -> Value {
        *self
    }
}

/// The closed recursive algebra describing the shape a field's runtime value
/// must have.
#[derive(Debug)]
pub enum ValueType {
    Optional { contained: Box<ValueType> },
    Boolean,
    Number,
    String,
    Array { elements: Box<ValueType> },
    Object { elements: Box<ValueType> },
    Opaque,
    Identifier,
}

impl Clone for ValueType {
    fn clone(&self) -> (r: Self)
        ensures
            r == *self,
        decreases *self,
    {
        match self {
            ValueType::Optional { contained } => ValueType::Optional {
                contained: Box::new((**contained).clone()),
            },
            ValueType::Boolean => ValueType::Boolean,
            ValueType::Number => ValueType::Number,
            ValueType::String => ValueType::String,
            ValueType::Array { elements } => ValueType::Array {
                elements: Box::new((**elements).clone()),
            },
            ValueType::Object { elements } => ValueType::Object {
                elements: Box::new((**elements).clone()),
            },
            ValueType::Opaque => ValueType::Opaque,
            ValueType::Identifier => ValueType::Identifier,
        }
    }
}

/// What `validate` decides: whether `v` structurally matches the type `t`.
pub open spec fn spec_validate(t: ValueType, v: Value) -> bool
    decreases t,
{
    match t {
        ValueType::Optional { contained } => v is Null || spec_validate(*contained, v),
        ValueType::Boolean => v is Bool,
        ValueType::Number => v is Number,
        ValueType::String => v is String,
        ValueType::Array { elements } => match v {
            Value::Array(items) => forall|i: int|
                0 <= i < items@.len() ==> spec_validate(*elements, #[trigger] items@[i]),
            _ => false,
        },
        ValueType::Object { elements } => match v {
            Value::Object(items) => forall|i: int|
                0 <= i < items@.len() ==> spec_validate(*elements, #[trigger] items@[i].1),
            _ => false,
        },
        ValueType::Opaque => true,
        ValueType::Identifier => match v {
            Value::String(text) => uuid_accepts(text@),
            _ => false,
        },
    }
}

impl ValueType {
    pub fn boolean() -> (r: Self)
        ensures
            r == ValueType::Boolean,
    {
        ValueType::Boolean
    }

    pub fn number() -> (r: Self)
        ensures
            r == ValueType::Number,
    {
        ValueType::Number
    }

    pub fn string() -> (r: Self)
        ensures
            r == ValueType::String,
    {
        ValueType::String
    }

    pub fn opaque() -> (r: Self)
        ensures
            r == ValueType::Opaque,
    {
        ValueType::Opaque
    }

    pub fn identifier() -> (r: Self)
        ensures
            r == ValueType::Identifier,
    {
        ValueType::Identifier
    }

    pub fn optional(contained: ValueType) -> (r: Self)
        ensures
            r == (ValueType::Optional { contained: Box::new(contained) }),
    {
        ValueType::Optional { contained: Box::new(contained) }
    }

    pub fn array(element_type: ValueType) -> (r: Self)
        ensures
            r == (ValueType::Array { elements: Box::new(element_type) }),
    {
        ValueType::Array { elements: Box::new(element_type) }
    }

    pub fn object(value_type: ValueType) -> (r: Self)
        ensures
            r == (ValueType::Object { elements: Box::new(value_type) }),
    {
        ValueType::Object { elements: Box::new(value_type) }
    }

    /// Structural validation: total, never fails, recurses into array and
    /// object element types; `Null` is valid for any `Optional`.
    pub fn validate(&self, value: &Value) -> (r: bool)
        ensures
            r == spec_validate(*self, *value),
        decreases *self, 0nat,
    {
        match self {
            ValueType::Optional { contained } => match value {
                Value::Null => true,
                other => contained.validate(other),
            },
            ValueType::Boolean => matches!(value, Value::Bool(_)),
            ValueType::Number => matches!(value, Value::Number(_)),
            ValueType::String => matches!(value, Value::String(_)),
            ValueType::Array { elements } => match value {
                Value::Array(items) => elements.validate_items(items, 0),
                _ => false,
            },
            ValueType::Object { elements } => match value {
                Value::Object(items) => elements.validate_entries(items, 0),
                _ => false,
            },
            ValueType::Opaque => true,
            ValueType::Identifier => match value {
                Value::String(text) => uuid_parse_ok(text.as_str()),
                _ => false,
            },
        }
    }

    /// Whether every element from position `from` on matches this type.
    fn validate_items(&self, items: &Vec<Value>, from: usize) -> (r: bool)
        requires
            from <= items@.len(),
        ensures
            r == forall|j: int|
                from <= j < items@.len() ==> spec_validate(*self, #[trigger] items@[j]),
        decreases *self, items@.len() - from + 1,
    {
        if from == items.len() {
            true
        } else {
            self.validate(&items[from]) && self.validate_items(items, from + 1)
        }
    }

    /// Whether every entry value from position `from` on matches this type.
    fn validate_entries(&self, items: &Vec<(String, Value)>, from: usize) -> (r: bool)
        requires
            from <= items@.len(),
        ensures
            r == forall|j: int|
                from <= j < items@.len() ==> spec_validate(*self, #[trigger] items@[j].1),
        decreases *self, items@.len() - from + 1,
    {
        if from == items.len() {
            true
        } else {
            self.validate(&items[from].1) && self.validate_entries(items, from + 1)
        }
    }

    /// Typed extraction: dispatches to the target type's caster.
    pub fn resolve<T: FromValue>(&self, value: Value) -> (r: Result<T, Error>)
        ensures
            match r {
                Ok(x) => T::cast_spec(*self, value) == Ok::<T::V, CastFault>(x.deep_view()),
                Err(e) => T::cast_spec(*self, value) matches Err(f) && fault_matches(e, f),
            },
    {
        T::from_value(self, value)
    }
}

/// The abstract description of a failed cast: either the declared type does not
/// match the requested extraction kind, or the runtime value's shape does not
/// match the declared type.
pub ghost enum CastFault {
    WrongKind { value_type: ValueType, expected: Seq<char> },
    WrongShape { value_type: ValueType, value: Value },
}

/// Whether the returned error is exactly the one the fault describes.
pub open spec fn fault_matches(e: Error, f: CastFault) -> bool {
    match f {
        CastFault::WrongKind { value_type, expected } => {
            &&& e matches Error::InvalidCast { value_type: vt, expected_type: et }
            &&& vt == value_type
            &&& et@ == expected
        },
        CastFault::WrongShape { value_type, value } => {
            &&& e matches Error::InvalidCastDatatype { value_type: vt, value: v }
            &&& vt == value_type
            &&& v == value
        },
    }
}

/// Typed extraction from a loosely-typed value, dispatched per target type.
pub trait FromValue: DeepView + Sized {
    /// What the extraction returns: the extracted abstraction, or the exact
    /// fault, short-circuiting on the first failing element.
    spec fn cast_spec(t: ValueType, v: Value) -> Result<Self::V, CastFault>;

    fn from_value(value_type: &ValueType, value: Value) -> (r: Result<Self, Error>)
        ensures
            match r {
                Ok(x) => Self::cast_spec(*value_type, value) == Ok::<Self::V, CastFault>(
                    x.deep_view(),
                ),
                Err(e) => Self::cast_spec(*value_type, value) matches Err(f) && fault_matches(
                    e,
                    f,
                ),
            },
    ;
}

impl FromValue for bool {
    open spec fn cast_spec(t: ValueType, v: Value) -> Result<bool, CastFault> {
        match t {
            ValueType::Boolean => match v {
                Value::Bool(b) => Ok(b),
                _ => Err(CastFault::WrongShape { value_type: t, value: v }),
            },
            _ => Err(CastFault::WrongKind { value_type: t, expected: "boolean"@ }),
        }
    }

    fn from_value(value_type: &ValueType, value: Value) -> (r: Result<bool, Error>) {
        if let ValueType::Boolean = value_type {
            if let Value::Bool(b) = value {
                Ok(b)
            } else {
                Err(Error::InvalidCastDatatype { value_type: value_type.clone(), value })
            }
        } else {
            Err(
                Error::InvalidCast {
                    value_type: value_type.clone(),
                    expected_type: String::from_str("boolean"),
                },
            )
        }
    }
}

impl FromValue for i64 {
    open spec fn cast_spec(t: ValueType, v: Value) -> Result<i64, CastFault> {
        match t {
            ValueType::Number => match v {
                Value::Number(n) => Ok(n),
                _ => Err(CastFault::WrongShape { value_type: t, value: v }),
            },
            _ => Err(CastFault::WrongKind { value_type: t, expected: "number"@ }),
        }
    }

    fn from_value(value_type: &ValueType, value: Value) -> (r: Result<i64, Error>) {
        if let ValueType::Number = value_type {
            if let Value::Number(n) = value {
                Ok(n)
            } else {
                Err(Error::InvalidCastDatatype { value_type: value_type.clone(), value })
            }
        } else {
            Err(
                Error::InvalidCast {
                    value_type: value_type.clone(),
                    expected_type: String::from_str("number"),
                },
            )
        }
    }
}

impl FromValue for String {
    open spec fn cast_spec(t: ValueType, v: Value) -> Result<Seq<char>, CastFault> {
        match t {
            ValueType::String => match v {
                Value::String(text) => Ok(text@),
                _ => Err(CastFault::WrongShape { value_type: t, value: v }),
            },
            _ => Err(CastFault::WrongKind { value_type: t, expected: "string"@ }),
        }
    }

    fn from_value(value_type: &ValueType, value: Value) -> (r: Result<String, Error>) {
        if let ValueType::String = value_type {
            if let Value::String(text) = value {
                Ok(text)
            } else {
                Err(Error::InvalidCastDatatype { value_type: value_type.clone(), value })
            }
        } else {
            Err(
                Error::InvalidCast {
                    value_type: value_type.clone(),
                    expected_type: String::from_str("string"),
                },
            )
        }
    }
}

impl FromValue for Value {
    open spec fn cast_spec(t: ValueType, v: Value) -> Result<Value, CastFault> {
        match t {
            ValueType::Opaque => Ok(v),
            _ => Err(CastFault::WrongKind { value_type: t, expected: "opaque"@ }),
        }
    }

    fn from_value(value_type: &ValueType, value: Value) -> (r: Result<Value, Error>) {
        if let ValueType::Opaque = value_type {
            Ok(value)
        } else {
            Err(
                Error::InvalidCast {
                    value_type: value_type.clone(),
                    expected_type: String::from_str("opaque"),
                },
            )
        }
    }
}

impl FromValue for Identifier {
    open spec fn cast_spec(t: ValueType, v: Value) -> Result<Seq<char>, CastFault> {
        match t {
            ValueType::Identifier => match v {
                Value::String(text) => if uuid_accepts(text@) {
                    Ok(text@)
                } else {
                    Err(CastFault::WrongShape { value_type: t, value: v })
                },
                _ => Err(CastFault::WrongShape { value_type: t, value: v }),
            },
            _ => Err(CastFault::WrongKind { value_type: t, expected: "identifier"@ }),
        }
    }

    fn from_value(value_type: &ValueType, value: Value) -> (r: Result<Identifier, Error>) {
        if let ValueType::Identifier = value_type {
            if let Value::String(text) = value {
                if uuid_parse_ok(text.as_str()) {
                    Ok(Identifier::from_text(text))
                } else {
                    Err(
                        Error::InvalidCastDatatype {
                            value_type: value_type.clone(),
                            value: Value::String(text),
                        },
                    )
                }
            } else {
                Err(Error::InvalidCastDatatype { value_type: value_type.clone(), value })
            }
        } else {
            Err(
                Error::InvalidCast {
                    value_type: value_type.clone(),
                    expected_type: String::from_str("identifier"),
                },
            )
        }
    }
}

/// Element-wise extraction of an array, short-circuiting on the first failure.
pub open spec fn cast_elems<T: FromValue>(t: ValueType, items: Seq<Value>) -> Result<
    Seq<T::V>,
    CastFault,
>
    decreases items.len(),
{
    if items.len() == 0 {
        Ok(Seq::empty())
    } else {
        match T::cast_spec(t, items[0]) {
            Err(f) => Err(f),
            Ok(x) => match cast_elems::<T>(t, items.subrange(1, items.len() as int)) {
                Err(f) => Err(f),
                Ok(rest) => Ok(seq![x] + rest),
            },
        }
    }
}

impl<T: FromValue> FromValue for Vec<T> {
    open spec fn cast_spec(t: ValueType, v: Value) -> Result<Seq<T::V>, CastFault> {
        match t {
            ValueType::Array { elements } => match v {
                Value::Array(items) => cast_elems::<T>(*elements, items@),
                _ => Err(CastFault::WrongShape { value_type: t, value: v }),
            },
            _ => Err(CastFault::WrongKind { value_type: t, expected: "array"@ }),
        }
    }

    #[verifier::loop_isolation(false)]
    fn from_value(value_type: &ValueType, value: Value) -> (r: Result<Vec<T>, Error>) {
        match value_type {
            ValueType::Array { elements } => match value {
                Value::Array(items) => {
                    let ghost el: ValueType = **elements;
                    let ghost orig: Seq<Value> = items@;
                    let mut items = items;
                    let mut out: Vec<T> = Vec::new();
                    proof {
                        assert(out.deep_view() + cast_elems::<T>(el, items@)->Ok_0 =~= cast_elems::<
                            T,
                        >(el, orig)->Ok_0);
                    }
                    loop
                        invariant
                            cast_elems::<T>(el, orig) == (match cast_elems::<T>(el, items@) {
                                Ok(rest) => Ok::<Seq<T::V>, CastFault>(out.deep_view() + rest),
                                Err(f) => Err::<Seq<T::V>, CastFault>(f),
                            }),
                        decreases items@.len(),
                    {
                        if items.len() == 0 {
                            proof {
                                assert(cast_elems::<T>(el, items@) == Ok::<Seq<T::V>, CastFault>(
                                    Seq::empty(),
                                ));
                                assert(out.deep_view() + Seq::<T::V>::empty() =~= out.deep_view());
                            }
                            return Ok(out);
                        }
                        let ghost before: Seq<Value> = items@;
                        let ghost out_before: Seq<T::V> = out.deep_view();
                        let head = items.remove(0);
                        proof {
                            assert(items@ =~= before.subrange(1, before.len() as int));
                            assert(head == before[0]);
                        }
                        match T::from_value(&**elements, head) {
                            Err(e) => {
                                proof {
                                    assert(T::cast_spec(el, head) is Err);
                                    assert(cast_elems::<T>(el, before) == Err::<
                                        Seq<T::V>,
                                        CastFault,
                                    >(T::cast_spec(el, head)->Err_0));
                                    assert(cast_elems::<T>(el, orig) is Err);
                                }
                                return Err(e);
                            },
                            Ok(x) => {
                                proof {
                                    assert(T::cast_spec(el, head) == Ok::<T::V, CastFault>(
                                        x.deep_view(),
                                    ));
                                }
                                out.push(x);
                                proof {
                                    assert(out.deep_view() =~= out_before + seq![x.deep_view()]);
                                    if cast_elems::<T>(el, items@) is Ok {
                                        assert(out_before + (seq![x.deep_view()] + cast_elems::<T>(
                                            el,
                                            items@,
                                        )->Ok_0) =~= out.deep_view() + cast_elems::<T>(
                                            el,
                                            items@,
                                        )->Ok_0);
                                    }
                                }
                            },
                        }
                    }
                },
                _ => Err(Error::InvalidCastDatatype { value_type: value_type.clone(), value }),
            },
            _ => Err(
                Error::InvalidCast {
                    value_type: value_type.clone(),
                    expected_type: String::from_str("array"),
                },
            ),
        }
    }
}

/// An object's entries as ordered key/value pairs; what an object value casts
/// to when each entry value is extracted as `T`.
pub struct ObjectEntries<T> {
    pub entries: Vec<(String, T)>,
}

impl<T: DeepView> DeepView for ObjectEntries<T> {
    type V = Seq<(Seq<char>, T::V)>;

    open spec fn deep_view(&self) -> Seq<(Seq<char>, T::V)> {
        self.entries.deep_view()
    }
}

/// Entry-wise extraction of an object, short-circuiting on the first failure.
pub open spec fn cast_entries<T: FromValue>(t: ValueType, items: Seq<(String, Value)>) -> Result<
    Seq<(Seq<char>, T::V)>,
    CastFault,
>
    decreases items.len(),
{
    if items.len() == 0 {
        Ok(Seq::empty())
    } else {
        match T::cast_spec(t, items[0].1) {
            Err(f) => Err(f),
            Ok(x) => match cast_entries::<T>(t, items.subrange(1, items.len() as int)) {
                Err(f) => Err(f),
                Ok(rest) => Ok(seq![(items[0].0@, x)] + rest),
            },
        }
    }
}

impl<T: FromValue> FromValue for ObjectEntries<T> {
    open spec fn cast_spec(t: ValueType, v: Value) -> Result<Seq<(Seq<char>, T::V)>, CastFault> {
        match t {
            ValueType::Object { elements } => match v {
                Value::Object(items) => cast_entries::<T>(*elements, items@),
                _ => Err(CastFault::WrongShape { value_type: t, value: v }),
            },
            _ => Err(CastFault::WrongKind { value_type: t, expected: "object"@ }),
        }
    }

    #[verifier::loop_isolation(false)]
    fn from_value(value_type: &ValueType, value: Value) -> (r: Result<ObjectEntries<T>, Error>) {
        match value_type {
            ValueType::Object { elements } => match value {
                Value::Object(items) => {
                    let ghost el: ValueType = **elements;
                    let ghost orig: Seq<(String, Value)> = items@;
                    let mut items = items;
                    let mut out: Vec<(String, T)> = Vec::new();
                    proof {
                        assert(out.deep_view() + cast_entries::<T>(el, items@)->Ok_0
                            =~= cast_entries::<T>(el, orig)->Ok_0);
                    }
                    loop
                        invariant
                            cast_entries::<T>(el, orig) == (match cast_entries::<T>(el, items@) {
                                Ok(rest) => Ok::<Seq<(Seq<char>, T::V)>, CastFault>(
                                    out.deep_view() + rest,
                                ),
                                Err(f) => Err::<Seq<(Seq<char>, T::V)>, CastFault>(f),
                            }),
                        decreases items@.len(),
                    {
                        if items.len() == 0 {
                            proof {
                                assert(cast_entries::<T>(el, items@) == Ok::<
                                    Seq<(Seq<char>, T::V)>,
                                    CastFault,
                                >(Seq::empty()));
                                assert(out.deep_view() + Seq::<(Seq<char>, T::V)>::empty()
                                    =~= out.deep_view());
                            }
                            return Ok(ObjectEntries { entries: out });
                        }
                        let ghost before: Seq<(String, Value)> = items@;
                        let ghost out_before: Seq<(Seq<char>, T::V)> = out.deep_view();
                        let head = items.remove(0);
                        proof {
                            assert(items@ =~= before.subrange(1, before.len() as int));
                        }
                        let (key, inner) = head;
                        match T::from_value(&**elements, inner) {
                            Err(e) => {
                                return Err(e);
                            },
                            Ok(x) => {
                                out.push((key, x));
                                proof {
                                    assert(out.deep_view() =~= out_before + seq![
                                        (before[0].0@, x.deep_view()),
                                    ]);
                                    if cast_entries::<T>(el, items@) is Ok {
                                        assert(out_before + (seq![(before[0].0@, x.deep_view())]
                                            + cast_entries::<T>(el, items@)->Ok_0)
                                            =~= out.deep_view() + cast_entries::<T>(
                                            el,
                                            items@,
                                        )->Ok_0);
                                    }
                                }
                            },
                        }
                    }
                },
                _ => Err(Error::InvalidCastDatatype { value_type: value_type.clone(), value }),
            },
            _ => Err(
                Error::InvalidCast {
                    value_type: value_type.clone(),
                    expected_type: String::from_str("object"),
                },
            ),
        }
    }
}

impl<T: FromValue> FromValue for Option<T> {
    open spec fn cast_spec(t: ValueType, v: Value) -> Result<Option<T::V>, CastFault> {
        match t {
            ValueType::Optional { contained } => match v {
                Value::Null => Ok(None),
                _ => match T::cast_spec(*contained, v) {
                    Ok(x) => Ok(Some(x)),
                    Err(f) => Err(f),
                },
            },
            _ => Err(CastFault::WrongKind { value_type: t, expected: "optional"@ }),
        }
    }

    fn from_value(value_type: &ValueType, value: Value) -> (r: Result<Option<T>, Error>) {
        match value_type {
            ValueType::Optional { contained } => match value {
                Value::Null => Ok(None),
                other => match T::from_value(&**contained, other) {
                    Ok(x) => Ok(Some(x)),
                    Err(e) => Err(e),
                },
            },
            _ => Err(
                Error::InvalidCast {
                    value_type: value_type.clone(),
                    expected_type: String::from_str("optional"),
                },
            ),
        }
    }
}

} // verus!

