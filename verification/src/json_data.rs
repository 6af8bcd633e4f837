use vstd::prelude::*;
use json::JsonValue;
use crate::arena::deref_opt;

verus! {

/// A JSON value as plain data. A number is kept as the parser keeps it: its
/// sign (`true` for positive), its mantissa and its decimal exponent. An
/// object keeps its entries in the order in which they were read, each key
/// once.
#[derive(Debug)]
pub enum JsonData {
    Null,
    Bool(bool),
    Number(bool, u64, i16),
    Text(String),
    Array(Vec<JsonData>),
    Object(Vec<(String, JsonData)>),
}

#[verifier::external_type_specification]
#[verifier::external_body]
pub struct ExJsonValue(JsonValue);

/// What `json::parse` gives for a text: the value read, or the text of the
/// error.
pub uninterp spec fn json_parsed(text: Seq<char>) -> Result<JsonData, Seq<char>>;

/// Turns a value of the `json` crate into plain data, one variant for one
/// variant: short and long strings become text, a number its parts (by
/// `Number::as_parts`), arrays and objects (by `JsonValue::members` and
/// `JsonValue::entries`, in their order) their converted elements.
#[verifier::external_body]
fn json_value_data(value: &JsonValue) -> JsonData {
    match value {
        JsonValue::Null => JsonData::Null,
        JsonValue::Boolean(b) => JsonData::Bool(*b),
        JsonValue::Number(n) => {
            let (positive, mantissa, exponent) = n.as_parts();
            JsonData::Number(positive, mantissa, exponent)
        },
        JsonValue::Short(s) => JsonData::Text(s.as_str().to_owned()),
        JsonValue::String(s) => JsonData::Text(s.clone()),
        JsonValue::Array(_) => JsonData::Array(value.members().map(json_value_data).collect()),
        JsonValue::Object(_) => JsonData::Object(value.entries().map(|(k, v)| (k.to_owned(), json_value_data(v))).collect()),
    }
}

/// `json::parse`: reads a JSON text. The result, or the text of the error
/// (by its `Display`), is named `json_parsed` of the text; how the parser
/// reads is not written out here.
#[verifier::external_body]
fn json_parse(text: &str) -> (r: Result<JsonData, String>)
    ensures
        match r {
            Ok(d) => json_parsed(text@) == Ok::<JsonData, Seq<char>>(d),
            Err(e) => json_parsed(text@) == Err::<JsonData, Seq<char>>(e@),
        },
{
    match json::parse(text) {
        Ok(value) => Ok(json_value_data(&value)),
        Err(err) => Err(err.to_string()),
    }
}

/// Reads a JSON text: the value, or the parser's message for what is wrong.
pub fn parse_json_text(text: &str) -> (r: Result<JsonData, String>)
    ensures
        match json_parsed(text@) {
            Ok(d) => r == Ok::<JsonData, String>(d),
            Err(e) => r matches Err(m) && m@ == e,
        },
{
    json_parse(text)
}

/// The value of the first entry named `key`, if any.
pub open spec fn entry_value(entries: Seq<(String, JsonData)>, key: Seq<char>) -> Option<JsonData>
    decreases entries.len(),
{
    if entries.len() == 0 {
        None
    } else if entries[0].0@ == key {
        Some(entries[0].1)
    } else {
        entry_value(entries.drop_first(), key)
    }
}

/// The signed integer of a number, as the `json` crate reads one (its
/// mantissa taken as an `i64`, negated when negative).
pub open spec fn signed_value(positive: bool, mantissa: u64, exponent: i16) -> Option<int> {
    if exponent != 0 {
        None
    } else if positive {
        Some((mantissa as i64) as int)
    } else {
        Some(-((mantissa as i64) as int))
    }
}

impl JsonData {
    /// The value of member `key` of an object; none for another value or a
    /// missing member.
    pub open spec fn member(self, key: Seq<char>) -> Option<JsonData> {
        match self {
            JsonData::Object(entries) => entry_value(entries@, key),
            _ => None,
        }
    }

    pub open spec fn unsigned_spec(self, max: int) -> Option<int> {
        match self {
            JsonData::Number(positive, mantissa, exponent) => if positive && exponent == 0 && mantissa <= max {
                Some(mantissa as int)
            } else {
                None
            },
            _ => None,
        }
    }

    pub open spec fn signed_spec(self, min: int, max: int) -> Option<int> {
        match self {
            JsonData::Number(positive, mantissa, exponent) => match signed_value(positive, mantissa, exponent) {
                Some(v) => if min <= v <= max {
                    Some(v)
                } else {
                    None
                },
                None => None,
            },
            _ => None,
        }
    }

    /// Member `key` of an object; none for another value or a missing member.
    pub fn member_value(&self, key: &str) -> (r: Option<&JsonData>)
        ensures
            deref_opt(r) == self.member(key@),
    {
        match self {
            JsonData::Object(entries) => {
                let mut i: usize = 0;
                proof {
                    assert(entries@.skip(0) =~= entries@);
                }
                while i < entries.len()
                    invariant
                        i <= entries@.len(),
                        entry_value(entries@, key@) == entry_value(entries@.skip(i as int), key@),
                        self.member(key@) == entry_value(entries@, key@),
                    decreases entries@.len() - i,
                {
                    proof {
                        assert(entries@.skip(i as int).drop_first() =~= entries@.skip(i + 1));
                    }
                    if crate::block::str_equal(entries[i].0.as_str(), key) {
                        proof {
                            assert(entries@.skip(i as int)[0] == entries@[i as int]);
                        }
                        return Some(&entries[i].1);
                    }
                    proof {
                        assert(entries@.skip(i as int)[0] == entries@[i as int]);
                    }
                    i = i + 1;
                }
                None
            },
            _ => None,
        }
    }

    /// Whether the value is null.
    pub fn is_null(&self) -> (r: bool)
        ensures
            r == (*self is Null),
    {
        match self {
            JsonData::Null => true,
            _ => false,
        }
    }

    pub fn as_bool(&self) -> (r: Option<bool>)
        ensures
            r == match *self {
                JsonData::Bool(b) => Some(b),
                _ => None,
            },
    {
        match self {
            JsonData::Bool(b) => Some(*b),
            _ => None,
        }
    }

    /// The text of a string value.
    pub fn as_str(&self) -> (r: Option<&str>)
        ensures
            match *self {
                JsonData::Text(s) => r matches Some(t) && t@ == s@,
                _ => r is None,
            },
    {
        match self {
            JsonData::Text(s) => Some(s.as_str()),
            _ => None,
        }
    }

    /// A number without exponent, positive, that fits in a `u32`.
    pub fn as_u32(&self) -> (r: Option<u32>)
        ensures
            match self.unsigned_spec(u32::MAX as int) {
                Some(v) => r == Some(v as u32),
                None => r is None,
            },
    {
        match self {
            JsonData::Number(positive, mantissa, exponent) => if *positive && *exponent == 0 && *mantissa
                <= u32::MAX as u64 {
                Some(*mantissa as u32)
            } else {
                None
            },
            _ => None,
        }
    }

    /// A number without exponent, positive, that fits in a `u8`.
    pub fn as_u8(&self) -> (r: Option<u8>)
        ensures
            match self.unsigned_spec(u8::MAX as int) {
                Some(v) => r == Some(v as u8),
                None => r is None,
            },
    {
        match self {
            JsonData::Number(positive, mantissa, exponent) => if *positive && *exponent == 0 && *mantissa
                <= u8::MAX as u64 {
                Some(*mantissa as u8)
            } else {
                None
            },
            _ => None,
        }
    }

    fn signed_in(&self, min: i64, max: i64) -> (r: Option<i64>)
        requires
            min <= max,
        ensures
            match self.signed_spec(min as int, max as int) {
                Some(v) => r == Some(v as i64),
                None => r is None,
            },
    {
        match self {
            JsonData::Number(positive, mantissa, exponent) => {
                if *exponent != 0 {
                    return None;
                }
                let m = *mantissa as i64;
                let v: i128 = if *positive {
                    m as i128
                } else {
                    -(m as i128)
                };
                if min as i128 <= v && v <= max as i128 {
                    Some(v as i64)
                } else {
                    None
                }
            },
            _ => None,
        }
    }

    /// A number without exponent that fits in an `i32`.
    pub fn as_i32(&self) -> (r: Option<i32>)
        ensures
            match self.signed_spec(i32::MIN as int, i32::MAX as int) {
                Some(v) => r == Some(v as i32),
                None => r is None,
            },
    {
        match self.signed_in(i32::MIN as i64, i32::MAX as i64) {
            Some(v) => Some(v as i32),
            None => None,
        }
    }

    /// A number without exponent that fits in an `i8`.
    pub fn as_i8(&self) -> (r: Option<i8>)
        ensures
            match self.signed_spec(i8::MIN as int, i8::MAX as int) {
                Some(v) => r == Some(v as i8),
                None => r is None,
            },
    {
        match self.signed_in(i8::MIN as i64, i8::MAX as i64) {
            Some(v) => Some(v as i8),
            None => None,
        }
    }

    /// The elements of an array; none for another value.
    pub fn members(&self) -> (r: &[JsonData])
        ensures
            r@ == match *self {
                JsonData::Array(items) => items@,
                _ => Seq::<JsonData>::empty(),
            },
    {
        match self {
            JsonData::Array(items) => items.as_slice(),
            _ => &[],
        }
    }

    /// The entries of an object, in order; none for another value.
    pub fn entries(&self) -> (r: &[(String, JsonData)])
        ensures
            r@ == match *self {
                JsonData::Object(entries) => entries@,
                _ => Seq::<(String, JsonData)>::empty(),
            },
    {
        match self {
            JsonData::Object(entries) => entries.as_slice(),
            _ => &[],
        }
    }
}

} // verus!
