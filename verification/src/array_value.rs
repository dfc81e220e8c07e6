//! The homogeneous-vector counterpart of the scalar value: one variant
//! per element type, a total type report, and structural JSON export.

use vstd::prelude::*;

use crate::calendar::{Date, Inet, Interval, Time, Timestamp};
use crate::decimal::Dec;
use crate::error::Error;
use crate::json::{json_of_value, jview, Json, JsonV};
use crate::literal::DataType;
use crate::value::{value_wf, vview, Value, ValueV};

verus! {

/// A homogeneous vector of one element type.  A nested `Array` element
/// type is deliberately erased in the type report.
#[derive(Debug)]
pub enum ArrayValue {
    Bool(Vec<bool>),
    I8(Vec<i8>),
    I16(Vec<i16>),
    I32(Vec<i32>),
    I64(Vec<i64>),
    I128(Vec<i128>),
    U8(Vec<u8>),
    U16(Vec<u16>),
    U32(Vec<u32>),
    U64(Vec<u64>),
    U128(Vec<u128>),
    Decimal(Vec<Dec>),
    Str(Vec<String>),
    Bytea(Vec<Vec<u8>>),
    Inet(Vec<Inet>),
    Date(Vec<Date>),
    Timestamp(Vec<Timestamp>),
    Time(Vec<Time>),
    Interval(Vec<Interval>),
    Uuid(Vec<u128>),
    Dict(Vec<Vec<(String, Value)>>),
    List(Vec<Vec<Value>>),
    Array(Vec<ArrayValue>),
}

/// The logical column type an array reports.
pub open spec fn spec_get_type(a: ArrayValue) -> DataType {
    match a {
        ArrayValue::Bool(_) => DataType::Boolean,
        ArrayValue::I8(_) => DataType::Int8,
        ArrayValue::I16(_) => DataType::Int16,
        ArrayValue::I32(_) => DataType::Int32,
        ArrayValue::I64(_) => DataType::Int,
        ArrayValue::I128(_) => DataType::Int128,
        ArrayValue::U8(_) => DataType::Uint8,
        ArrayValue::U16(_) => DataType::Uint16,
        ArrayValue::U32(_) => DataType::Uint32,
        ArrayValue::U64(_) => DataType::Uint64,
        ArrayValue::U128(_) => DataType::Uint128,
        ArrayValue::Decimal(_) => DataType::Decimal,
        ArrayValue::Str(_) => DataType::Text,
        ArrayValue::Bytea(_) => DataType::Bytea,
        ArrayValue::Inet(_) => DataType::Inet,
        ArrayValue::Date(_) => DataType::Date,
        ArrayValue::Timestamp(_) => DataType::Timestamp,
        ArrayValue::Time(_) => DataType::Time,
        ArrayValue::Interval(_) => DataType::Interval,
        ArrayValue::Uuid(_) => DataType::Uuid,
        ArrayValue::Dict(_) => DataType::Dict,
        ArrayValue::List(_) => DataType::List,
        ArrayValue::Array(_) => DataType::Array,
    }
}

impl ArrayValue {
    /// The logical column type of this array: total, with the nested
    /// array's element type reported as the bare array type.
    pub fn get_type(&self) -> (r: DataType)
        ensures
            r == spec_get_type(*self),
    {
        match self {
            ArrayValue::Bool(_) => DataType::Boolean,
            ArrayValue::I8(_) => DataType::Int8,
            ArrayValue::I16(_) => DataType::Int16,
            ArrayValue::I32(_) => DataType::Int32,
            ArrayValue::I64(_) => DataType::Int,
            ArrayValue::I128(_) => DataType::Int128,
            ArrayValue::U8(_) => DataType::Uint8,
            ArrayValue::U16(_) => DataType::Uint16,
            ArrayValue::U32(_) => DataType::Uint32,
            ArrayValue::U64(_) => DataType::Uint64,
            ArrayValue::U128(_) => DataType::Uint128,
            ArrayValue::Decimal(_) => DataType::Decimal,
            ArrayValue::Str(_) => DataType::Text,
            ArrayValue::Bytea(_) => DataType::Bytea,
            ArrayValue::Inet(_) => DataType::Inet,
            ArrayValue::Date(_) => DataType::Date,
            ArrayValue::Timestamp(_) => DataType::Timestamp,
            ArrayValue::Time(_) => DataType::Time,
            ArrayValue::Interval(_) => DataType::Interval,
            ArrayValue::Uuid(_) => DataType::Uuid,
            ArrayValue::Dict(_) => DataType::Dict,
            ArrayValue::List(_) => DataType::List,
            ArrayValue::Array(_) => DataType::Array,
        }
    }
}

/// The scalar values an array's elements stand for (nested arrays are
/// handled separately).
pub open spec fn arr_values(a: ArrayValue) -> Seq<ValueV> {
    match a {
        ArrayValue::Bool(v) => Seq::new(v@.len(), |i: int| ValueV::Bool(v@[i])),
        ArrayValue::I8(v) => Seq::new(v@.len(), |i: int| ValueV::I8(v@[i])),
        ArrayValue::I16(v) => Seq::new(v@.len(), |i: int| ValueV::I16(v@[i])),
        ArrayValue::I32(v) => Seq::new(v@.len(), |i: int| ValueV::I32(v@[i])),
        ArrayValue::I64(v) => Seq::new(v@.len(), |i: int| ValueV::I64(v@[i])),
        ArrayValue::I128(v) => Seq::new(v@.len(), |i: int| ValueV::I128(v@[i])),
        ArrayValue::U8(v) => Seq::new(v@.len(), |i: int| ValueV::U8(v@[i])),
        ArrayValue::U16(v) => Seq::new(v@.len(), |i: int| ValueV::U16(v@[i])),
        ArrayValue::U32(v) => Seq::new(v@.len(), |i: int| ValueV::U32(v@[i])),
        ArrayValue::U64(v) => Seq::new(v@.len(), |i: int| ValueV::U64(v@[i])),
        ArrayValue::U128(v) => Seq::new(v@.len(), |i: int| ValueV::U128(v@[i])),
        ArrayValue::Decimal(v) => Seq::new(v@.len(), |i: int| ValueV::Decimal(v@[i])),
        ArrayValue::Inet(v) => Seq::new(v@.len(), |i: int| ValueV::Inet(v@[i])),
        ArrayValue::Date(v) => Seq::new(v@.len(), |i: int| ValueV::Date(v@[i])),
        ArrayValue::Timestamp(v) => Seq::new(v@.len(), |i: int| ValueV::Timestamp(v@[i])),
        ArrayValue::Time(v) => Seq::new(v@.len(), |i: int| ValueV::Time(v@[i])),
        ArrayValue::Interval(v) => Seq::new(v@.len(), |i: int| ValueV::Interval(v@[i])),
        ArrayValue::Uuid(v) => Seq::new(v@.len(), |i: int| ValueV::Uuid(v@[i])),
        ArrayValue::Str(v) => Seq::new(v@.len(), |i: int| ValueV::Str(v@[i]@)),
        ArrayValue::Bytea(v) => Seq::new(v@.len(), |i: int| ValueV::Bytea(v@[i]@)),
        ArrayValue::Dict(v) => Seq::new(v@.len(), |i: int| vview(Value::Dict(v@[i]))),
        ArrayValue::List(v) => Seq::new(v@.len(), |i: int| vview(Value::List(v@[i]))),
        ArrayValue::Array(v) => Seq::empty(),
    }
}

/// Whether every element of an array is well-formed.
pub open spec fn array_wf(a: ArrayValue) -> bool
    decreases a,
{
    match a {
        ArrayValue::Array(v) => forall|i: int|
            0 <= i < v@.len() ==> array_wf(#[trigger] a->Array_0@[i]),
        _ => forall|i: int| 0 <= i < arr_values(a).len() ==> value_wf(#[trigger] arr_values(a)[i]),
    }
}

/// The JSON export of an array: element-wise, a nested array recursing;
/// `None` only where an element's number text is refused.
pub open spec fn json_of_array(a: ArrayValue) -> Option<JsonV>
    decreases a,
{
    match a {
        ArrayValue::Array(v) => {
            if forall|i: int| 0 <= i < v@.len() ==> json_of_array(#[trigger] a->Array_0@[i]) is Some {
                Some(
                    JsonV::Arr(
                        Seq::new(
                            v@.len(),
                            |i: int|
                                if 0 <= i < a->Array_0@.len() {
                                    json_of_array(a->Array_0@[i])->0
                                } else {
                                    JsonV::Null
                                },
                        ),
                    ),
                )
            } else {
                None
            }
        },
        _ => {
            if forall|i: int|
                0 <= i < arr_values(a).len() ==> json_of_value(#[trigger] arr_values(a)[i]) is Some {
                Some(
                    JsonV::Arr(
                        Seq::new(
                            arr_values(a).len(),
                            |i: int|
                                if 0 <= i < arr_values(a).len() {
                                    json_of_value(arr_values(a)[i])->0
                                } else {
                                    JsonV::Null
                                },
                        ),
                    ),
                )
            } else {
                None
            }
        },
    }
}

/// Exports an array as a JSON array of its elements' exports; the one
/// failure is an element's number text the JSON number grammar refuses.
pub fn array_to_json(a: &ArrayValue) -> (r: Result<Json, Error>)
    requires
        array_wf(*a),
    ensures
        match json_of_array(*a) {
            Some(j) => r is Ok && r->Ok_0@ == j,
            None => r matches Err(
                Error::Value(crate::error::ValueError::UnreachableJsonNumberParseFailure(_)),
            ),
        },
    decreases *a,
{
    match a {
        ArrayValue::Bool(v) => {
            let mut out: Vec<Json> = Vec::new();
            let mut i: usize = 0;
            while i < v.len()
                invariant
                    i <= v@.len(),
                    out@.len() == i,
                    *a == ArrayValue::Bool(*v),
                    array_wf(*a),
                    forall|j: int|
                        0 <= j < i ==> json_of_value(#[trigger] arr_values(*a)[j]) is Some
                            && out@[j]@ == json_of_value(arr_values(*a)[j])->0,
                decreases v@.len() - i,
            {
                proof {
                    assert(value_wf(arr_values(*a)[i as int]));
                }
                let ev = Value::Bool(v[i]);
                let j = match crate::json::value_to_json(&ev) {
                    Ok(j) => j,
                    Err(e) => {
                        proof {
                            assert(json_of_array(*a) is None);
                        }
                        return Err(e);
                    },
                };
                out.push(j);
                i = i + 1;
            }
            let r = Json::Arr(out);
            proof {
                assert(json_of_array(*a) is Some);
                assert(jview(r)->Arr_0 =~= json_of_array(*a)->0->Arr_0);
            }
            Ok(r)
        },
        ArrayValue::I8(v) => {
            let mut out: Vec<Json> = Vec::new();
            let mut i: usize = 0;
            while i < v.len()
                invariant
                    i <= v@.len(),
                    out@.len() == i,
                    *a == ArrayValue::I8(*v),
                    array_wf(*a),
                    forall|j: int|
                        0 <= j < i ==> json_of_value(#[trigger] arr_values(*a)[j]) is Some
                            && out@[j]@ == json_of_value(arr_values(*a)[j])->0,
                decreases v@.len() - i,
            {
                proof {
                    assert(value_wf(arr_values(*a)[i as int]));
                }
                let ev = Value::I8(v[i]);
                let j = match crate::json::value_to_json(&ev) {
                    Ok(j) => j,
                    Err(e) => {
                        proof {
                            assert(json_of_array(*a) is None);
                        }
                        return Err(e);
                    },
                };
                out.push(j);
                i = i + 1;
            }
            let r = Json::Arr(out);
            proof {
                assert(json_of_array(*a) is Some);
                assert(jview(r)->Arr_0 =~= json_of_array(*a)->0->Arr_0);
            }
            Ok(r)
        },
        ArrayValue::I16(v) => {
            let mut out: Vec<Json> = Vec::new();
            let mut i: usize = 0;
            while i < v.len()
                invariant
                    i <= v@.len(),
                    out@.len() == i,
                    *a == ArrayValue::I16(*v),
                    array_wf(*a),
                    forall|j: int|
                        0 <= j < i ==> json_of_value(#[trigger] arr_values(*a)[j]) is Some
                            && out@[j]@ == json_of_value(arr_values(*a)[j])->0,
                decreases v@.len() - i,
            {
                proof {
                    assert(value_wf(arr_values(*a)[i as int]));
                }
                let ev = Value::I16(v[i]);
                let j = match crate::json::value_to_json(&ev) {
                    Ok(j) => j,
                    Err(e) => {
                        proof {
                            assert(json_of_array(*a) is None);
                        }
                        return Err(e);
                    },
                };
                out.push(j);
                i = i + 1;
            }
            let r = Json::Arr(out);
            proof {
                assert(json_of_array(*a) is Some);
                assert(jview(r)->Arr_0 =~= json_of_array(*a)->0->Arr_0);
            }
            Ok(r)
        },
        ArrayValue::I32(v) => {
            let mut out: Vec<Json> = Vec::new();
            let mut i: usize = 0;
            while i < v.len()
                invariant
                    i <= v@.len(),
                    out@.len() == i,
                    *a == ArrayValue::I32(*v),
                    array_wf(*a),
                    forall|j: int|
                        0 <= j < i ==> json_of_value(#[trigger] arr_values(*a)[j]) is Some
                            && out@[j]@ == json_of_value(arr_values(*a)[j])->0,
                decreases v@.len() - i,
            {
                proof {
                    assert(value_wf(arr_values(*a)[i as int]));
                }
                let ev = Value::I32(v[i]);
                let j = match crate::json::value_to_json(&ev) {
                    Ok(j) => j,
                    Err(e) => {
                        proof {
                            assert(json_of_array(*a) is None);
                        }
                        return Err(e);
                    },
                };
                out.push(j);
                i = i + 1;
            }
            let r = Json::Arr(out);
            proof {
                assert(json_of_array(*a) is Some);
                assert(jview(r)->Arr_0 =~= json_of_array(*a)->0->Arr_0);
            }
            Ok(r)
        },
        ArrayValue::I64(v) => {
            let mut out: Vec<Json> = Vec::new();
            let mut i: usize = 0;
            while i < v.len()
                invariant
                    i <= v@.len(),
                    out@.len() == i,
                    *a == ArrayValue::I64(*v),
                    array_wf(*a),
                    forall|j: int|
                        0 <= j < i ==> json_of_value(#[trigger] arr_values(*a)[j]) is Some
                            && out@[j]@ == json_of_value(arr_values(*a)[j])->0,
                decreases v@.len() - i,
            {
                proof {
                    assert(value_wf(arr_values(*a)[i as int]));
                }
                let ev = Value::I64(v[i]);
                let j = match crate::json::value_to_json(&ev) {
                    Ok(j) => j,
                    Err(e) => {
                        proof {
                            assert(json_of_array(*a) is None);
                        }
                        return Err(e);
                    },
                };
                out.push(j);
                i = i + 1;
            }
            let r = Json::Arr(out);
            proof {
                assert(json_of_array(*a) is Some);
                assert(jview(r)->Arr_0 =~= json_of_array(*a)->0->Arr_0);
            }
            Ok(r)
        },
        ArrayValue::I128(v) => {
            let mut out: Vec<Json> = Vec::new();
            let mut i: usize = 0;
            while i < v.len()
                invariant
                    i <= v@.len(),
                    out@.len() == i,
                    *a == ArrayValue::I128(*v),
                    array_wf(*a),
                    forall|j: int|
                        0 <= j < i ==> json_of_value(#[trigger] arr_values(*a)[j]) is Some
                            && out@[j]@ == json_of_value(arr_values(*a)[j])->0,
                decreases v@.len() - i,
            {
                proof {
                    assert(value_wf(arr_values(*a)[i as int]));
                }
                let ev = Value::I128(v[i]);
                let j = match crate::json::value_to_json(&ev) {
                    Ok(j) => j,
                    Err(e) => {
                        proof {
                            assert(json_of_array(*a) is None);
                        }
                        return Err(e);
                    },
                };
                out.push(j);
                i = i + 1;
            }
            let r = Json::Arr(out);
            proof {
                assert(json_of_array(*a) is Some);
                assert(jview(r)->Arr_0 =~= json_of_array(*a)->0->Arr_0);
            }
            Ok(r)
        },
        ArrayValue::U8(v) => {
            let mut out: Vec<Json> = Vec::new();
            let mut i: usize = 0;
            while i < v.len()
                invariant
                    i <= v@.len(),
                    out@.len() == i,
                    *a == ArrayValue::U8(*v),
                    array_wf(*a),
                    forall|j: int|
                        0 <= j < i ==> json_of_value(#[trigger] arr_values(*a)[j]) is Some
                            && out@[j]@ == json_of_value(arr_values(*a)[j])->0,
                decreases v@.len() - i,
            {
                proof {
                    assert(value_wf(arr_values(*a)[i as int]));
                }
                let ev = Value::U8(v[i]);
                let j = match crate::json::value_to_json(&ev) {
                    Ok(j) => j,
                    Err(e) => {
                        proof {
                            assert(json_of_array(*a) is None);
                        }
                        return Err(e);
                    },
                };
                out.push(j);
                i = i + 1;
            }
            let r = Json::Arr(out);
            proof {
                assert(json_of_array(*a) is Some);
                assert(jview(r)->Arr_0 =~= json_of_array(*a)->0->Arr_0);
            }
            Ok(r)
        },
        ArrayValue::U16(v) => {
            let mut out: Vec<Json> = Vec::new();
            let mut i: usize = 0;
            while i < v.len()
                invariant
                    i <= v@.len(),
                    out@.len() == i,
                    *a == ArrayValue::U16(*v),
                    array_wf(*a),
                    forall|j: int|
                        0 <= j < i ==> json_of_value(#[trigger] arr_values(*a)[j]) is Some
                            && out@[j]@ == json_of_value(arr_values(*a)[j])->0,
                decreases v@.len() - i,
            {
                proof {
                    assert(value_wf(arr_values(*a)[i as int]));
                }
                let ev = Value::U16(v[i]);
                let j = match crate::json::value_to_json(&ev) {
                    Ok(j) => j,
                    Err(e) => {
                        proof {
                            assert(json_of_array(*a) is None);
                        }
                        return Err(e);
                    },
                };
                out.push(j);
                i = i + 1;
            }
            let r = Json::Arr(out);
            proof {
                assert(json_of_array(*a) is Some);
                assert(jview(r)->Arr_0 =~= json_of_array(*a)->0->Arr_0);
            }
            Ok(r)
        },
        ArrayValue::U32(v) => {
            let mut out: Vec<Json> = Vec::new();
            let mut i: usize = 0;
            while i < v.len()
                invariant
                    i <= v@.len(),
                    out@.len() == i,
                    *a == ArrayValue::U32(*v),
                    array_wf(*a),
                    forall|j: int|
                        0 <= j < i ==> json_of_value(#[trigger] arr_values(*a)[j]) is Some
                            && out@[j]@ == json_of_value(arr_values(*a)[j])->0,
                decreases v@.len() - i,
            {
                proof {
                    assert(value_wf(arr_values(*a)[i as int]));
                }
                let ev = Value::U32(v[i]);
                let j = match crate::json::value_to_json(&ev) {
                    Ok(j) => j,
                    Err(e) => {
                        proof {
                            assert(json_of_array(*a) is None);
                        }
                        return Err(e);
                    },
                };
                out.push(j);
                i = i + 1;
            }
            let r = Json::Arr(out);
            proof {
                assert(json_of_array(*a) is Some);
                assert(jview(r)->Arr_0 =~= json_of_array(*a)->0->Arr_0);
            }
            Ok(r)
        },
        ArrayValue::U64(v) => {
            let mut out: Vec<Json> = Vec::new();
            let mut i: usize = 0;
            while i < v.len()
                invariant
                    i <= v@.len(),
                    out@.len() == i,
                    *a == ArrayValue::U64(*v),
                    array_wf(*a),
                    forall|j: int|
                        0 <= j < i ==> json_of_value(#[trigger] arr_values(*a)[j]) is Some
                            && out@[j]@ == json_of_value(arr_values(*a)[j])->0,
                decreases v@.len() - i,
            {
                proof {
                    assert(value_wf(arr_values(*a)[i as int]));
                }
                let ev = Value::U64(v[i]);
                let j = match crate::json::value_to_json(&ev) {
                    Ok(j) => j,
                    Err(e) => {
                        proof {
                            assert(json_of_array(*a) is None);
                        }
                        return Err(e);
                    },
                };
                out.push(j);
                i = i + 1;
            }
            let r = Json::Arr(out);
            proof {
                assert(json_of_array(*a) is Some);
                assert(jview(r)->Arr_0 =~= json_of_array(*a)->0->Arr_0);
            }
            Ok(r)
        },
        ArrayValue::U128(v) => {
            let mut out: Vec<Json> = Vec::new();
            let mut i: usize = 0;
            while i < v.len()
                invariant
                    i <= v@.len(),
                    out@.len() == i,
                    *a == ArrayValue::U128(*v),
                    array_wf(*a),
                    forall|j: int|
                        0 <= j < i ==> json_of_value(#[trigger] arr_values(*a)[j]) is Some
                            && out@[j]@ == json_of_value(arr_values(*a)[j])->0,
                decreases v@.len() - i,
            {
                proof {
                    assert(value_wf(arr_values(*a)[i as int]));
                }
                let ev = Value::U128(v[i]);
                let j = match crate::json::value_to_json(&ev) {
                    Ok(j) => j,
                    Err(e) => {
                        proof {
                            assert(json_of_array(*a) is None);
                        }
                        return Err(e);
                    },
                };
                out.push(j);
                i = i + 1;
            }
            let r = Json::Arr(out);
            proof {
                assert(json_of_array(*a) is Some);
                assert(jview(r)->Arr_0 =~= json_of_array(*a)->0->Arr_0);
            }
            Ok(r)
        },
        ArrayValue::Decimal(v) => {
            let mut out: Vec<Json> = Vec::new();
            let mut i: usize = 0;
            while i < v.len()
                invariant
                    i <= v@.len(),
                    out@.len() == i,
                    *a == ArrayValue::Decimal(*v),
                    array_wf(*a),
                    forall|j: int|
                        0 <= j < i ==> json_of_value(#[trigger] arr_values(*a)[j]) is Some
                            && out@[j]@ == json_of_value(arr_values(*a)[j])->0,
                decreases v@.len() - i,
            {
                proof {
                    assert(value_wf(arr_values(*a)[i as int]));
                }
                let ev = Value::Decimal(v[i]);
                let j = match crate::json::value_to_json(&ev) {
                    Ok(j) => j,
                    Err(e) => {
                        proof {
                            assert(json_of_array(*a) is None);
                        }
                        return Err(e);
                    },
                };
                out.push(j);
                i = i + 1;
            }
            let r = Json::Arr(out);
            proof {
                assert(json_of_array(*a) is Some);
                assert(jview(r)->Arr_0 =~= json_of_array(*a)->0->Arr_0);
            }
            Ok(r)
        },
        ArrayValue::Inet(v) => {
            let mut out: Vec<Json> = Vec::new();
            let mut i: usize = 0;
            while i < v.len()
                invariant
                    i <= v@.len(),
                    out@.len() == i,
                    *a == ArrayValue::Inet(*v),
                    array_wf(*a),
                    forall|j: int|
                        0 <= j < i ==> json_of_value(#[trigger] arr_values(*a)[j]) is Some
                            && out@[j]@ == json_of_value(arr_values(*a)[j])->0,
                decreases v@.len() - i,
            {
                proof {
                    assert(value_wf(arr_values(*a)[i as int]));
                }
                let ev = Value::Inet(v[i]);
                let j = match crate::json::value_to_json(&ev) {
                    Ok(j) => j,
                    Err(e) => {
                        proof {
                            assert(json_of_array(*a) is None);
                        }
                        return Err(e);
                    },
                };
                out.push(j);
                i = i + 1;
            }
            let r = Json::Arr(out);
            proof {
                assert(json_of_array(*a) is Some);
                assert(jview(r)->Arr_0 =~= json_of_array(*a)->0->Arr_0);
            }
            Ok(r)
        },
        ArrayValue::Date(v) => {
            let mut out: Vec<Json> = Vec::new();
            let mut i: usize = 0;
            while i < v.len()
                invariant
                    i <= v@.len(),
                    out@.len() == i,
                    *a == ArrayValue::Date(*v),
                    array_wf(*a),
                    forall|j: int|
                        0 <= j < i ==> json_of_value(#[trigger] arr_values(*a)[j]) is Some
                            && out@[j]@ == json_of_value(arr_values(*a)[j])->0,
                decreases v@.len() - i,
            {
                proof {
                    assert(value_wf(arr_values(*a)[i as int]));
                }
                let ev = Value::Date(v[i]);
                let j = match crate::json::value_to_json(&ev) {
                    Ok(j) => j,
                    Err(e) => {
                        proof {
                            assert(json_of_array(*a) is None);
                        }
                        return Err(e);
                    },
                };
                out.push(j);
                i = i + 1;
            }
            let r = Json::Arr(out);
            proof {
                assert(json_of_array(*a) is Some);
                assert(jview(r)->Arr_0 =~= json_of_array(*a)->0->Arr_0);
            }
            Ok(r)
        },
        ArrayValue::Timestamp(v) => {
            let mut out: Vec<Json> = Vec::new();
            let mut i: usize = 0;
            while i < v.len()
                invariant
                    i <= v@.len(),
                    out@.len() == i,
                    *a == ArrayValue::Timestamp(*v),
                    array_wf(*a),
                    forall|j: int|
                        0 <= j < i ==> json_of_value(#[trigger] arr_values(*a)[j]) is Some
                            && out@[j]@ == json_of_value(arr_values(*a)[j])->0,
                decreases v@.len() - i,
            {
                proof {
                    assert(value_wf(arr_values(*a)[i as int]));
                }
                let ev = Value::Timestamp(v[i]);
                let j = match crate::json::value_to_json(&ev) {
                    Ok(j) => j,
                    Err(e) => {
                        proof {
                            assert(json_of_array(*a) is None);
                        }
                        return Err(e);
                    },
                };
                out.push(j);
                i = i + 1;
            }
            let r = Json::Arr(out);
            proof {
                assert(json_of_array(*a) is Some);
                assert(jview(r)->Arr_0 =~= json_of_array(*a)->0->Arr_0);
            }
            Ok(r)
        },
        ArrayValue::Time(v) => {
            let mut out: Vec<Json> = Vec::new();
            let mut i: usize = 0;
            while i < v.len()
                invariant
                    i <= v@.len(),
                    out@.len() == i,
                    *a == ArrayValue::Time(*v),
                    array_wf(*a),
                    forall|j: int|
                        0 <= j < i ==> json_of_value(#[trigger] arr_values(*a)[j]) is Some
                            && out@[j]@ == json_of_value(arr_values(*a)[j])->0,
                decreases v@.len() - i,
            {
                proof {
                    assert(value_wf(arr_values(*a)[i as int]));
                }
                let ev = Value::Time(v[i]);
                let j = match crate::json::value_to_json(&ev) {
                    Ok(j) => j,
                    Err(e) => {
                        proof {
                            assert(json_of_array(*a) is None);
                        }
                        return Err(e);
                    },
                };
                out.push(j);
                i = i + 1;
            }
            let r = Json::Arr(out);
            proof {
                assert(json_of_array(*a) is Some);
                assert(jview(r)->Arr_0 =~= json_of_array(*a)->0->Arr_0);
            }
            Ok(r)
        },
        ArrayValue::Interval(v) => {
            let mut out: Vec<Json> = Vec::new();
            let mut i: usize = 0;
            while i < v.len()
                invariant
                    i <= v@.len(),
                    out@.len() == i,
                    *a == ArrayValue::Interval(*v),
                    array_wf(*a),
                    forall|j: int|
                        0 <= j < i ==> json_of_value(#[trigger] arr_values(*a)[j]) is Some
                            && out@[j]@ == json_of_value(arr_values(*a)[j])->0,
                decreases v@.len() - i,
            {
                proof {
                    assert(value_wf(arr_values(*a)[i as int]));
                }
                let ev = Value::Interval(v[i]);
                let j = match crate::json::value_to_json(&ev) {
                    Ok(j) => j,
                    Err(e) => {
                        proof {
                            assert(json_of_array(*a) is None);
                        }
                        return Err(e);
                    },
                };
                out.push(j);
                i = i + 1;
            }
            let r = Json::Arr(out);
            proof {
                assert(json_of_array(*a) is Some);
                assert(jview(r)->Arr_0 =~= json_of_array(*a)->0->Arr_0);
            }
            Ok(r)
        },
        ArrayValue::Uuid(v) => {
            let mut out: Vec<Json> = Vec::new();
            let mut i: usize = 0;
            while i < v.len()
                invariant
                    i <= v@.len(),
                    out@.len() == i,
                    *a == ArrayValue::Uuid(*v),
                    array_wf(*a),
                    forall|j: int|
                        0 <= j < i ==> json_of_value(#[trigger] arr_values(*a)[j]) is Some
                            && out@[j]@ == json_of_value(arr_values(*a)[j])->0,
                decreases v@.len() - i,
            {
                proof {
                    assert(value_wf(arr_values(*a)[i as int]));
                }
                let ev = Value::Uuid(v[i]);
                let j = match crate::json::value_to_json(&ev) {
                    Ok(j) => j,
                    Err(e) => {
                        proof {
                            assert(json_of_array(*a) is None);
                        }
                        return Err(e);
                    },
                };
                out.push(j);
                i = i + 1;
            }
            let r = Json::Arr(out);
            proof {
                assert(json_of_array(*a) is Some);
                assert(jview(r)->Arr_0 =~= json_of_array(*a)->0->Arr_0);
            }
            Ok(r)
        },
        ArrayValue::Str(v) => {
            let mut out: Vec<Json> = Vec::new();
            let mut i: usize = 0;
            while i < v.len()
                invariant
                    i <= v@.len(),
                    out@.len() == i,
                    *a == ArrayValue::Str(*v),
                    array_wf(*a),
                    forall|j: int|
                        0 <= j < i ==> json_of_value(#[trigger] arr_values(*a)[j]) is Some
                            && out@[j]@ == json_of_value(arr_values(*a)[j])->0,
                decreases v@.len() - i,
            {
                proof {
                    assert(value_wf(arr_values(*a)[i as int]));
                }
                let ev = Value::Str(v[i].clone());
                let j = match crate::json::value_to_json(&ev) {
                    Ok(j) => j,
                    Err(e) => {
                        proof {
                            assert(json_of_array(*a) is None);
                        }
                        return Err(e);
                    },
                };
                out.push(j);
                i = i + 1;
            }
            let r = Json::Arr(out);
            proof {
                assert(json_of_array(*a) is Some);
                assert(jview(r)->Arr_0 =~= json_of_array(*a)->0->Arr_0);
            }
            Ok(r)
        },
        ArrayValue::Bytea(v) => {
            let mut out: Vec<Json> = Vec::new();
            let mut i: usize = 0;
            while i < v.len()
                invariant
                    i <= v@.len(),
                    out@.len() == i,
                    *a == ArrayValue::Bytea(*v),
                    array_wf(*a),
                    forall|j: int|
                        0 <= j < i ==> json_of_value(#[trigger] arr_values(*a)[j]) is Some
                            && out@[j]@ == json_of_value(arr_values(*a)[j])->0,
                decreases v@.len() - i,
            {
                proof {
                    assert(value_wf(arr_values(*a)[i as int]));
                }
                let ev = {
                    let mut b: Vec<u8> = Vec::new();
                    let mut k: usize = 0;
                    while k < v[i].len()
                        invariant
                            0 <= i < v@.len(),
                            k <= v@[i as int]@.len(),
                            b@ == v@[i as int]@.take(k as int),
                        decreases v@[i as int]@.len() - k,
                    {
                        b.push(v[i][k]);
                        proof {
                            assert(b@ =~= v@[i as int]@.take(k + 1));
                        }
                        k = k + 1;
                    }
                    proof {
                        assert(v@[i as int]@.take(v@[i as int]@.len() as int) =~= v@[i as int]@);
                    }
                    Value::Bytea(b)
                };
                let j = match crate::json::value_to_json(&ev) {
                    Ok(j) => j,
                    Err(e) => {
                        proof {
                            assert(json_of_array(*a) is None);
                        }
                        return Err(e);
                    },
                };
                out.push(j);
                i = i + 1;
            }
            let r = Json::Arr(out);
            proof {
                assert(json_of_array(*a) is Some);
                assert(jview(r)->Arr_0 =~= json_of_array(*a)->0->Arr_0);
            }
            Ok(r)
        },
        ArrayValue::Dict(v) => {
            let mut out: Vec<Json> = Vec::new();
            let mut i: usize = 0;
            while i < v.len()
                invariant
                    i <= v@.len(),
                    out@.len() == i,
                    *a == ArrayValue::Dict(*v),
                    array_wf(*a),
                    forall|j: int|
                        0 <= j < i ==> json_of_value(#[trigger] arr_values(*a)[j]) is Some
                            && out@[j]@ == json_of_value(arr_values(*a)[j])->0,
                decreases v@.len() - i,
            {
                proof {
                    assert(value_wf(arr_values(*a)[i as int]));
                }
                let ev = Value::Dict(crate::value::dict_content_clone(&v[i]));
                proof {
                    assert(vview(ev)->Dict_0 =~= vview(Value::Dict(v@[i as int]))->Dict_0);
                    assert(ev@ == arr_values(*a)[i as int]);
                }
                let j = match crate::json::value_to_json(&ev) {
                    Ok(j) => j,
                    Err(e) => {
                        proof {
                            assert(json_of_array(*a) is None);
                        }
                        return Err(e);
                    },
                };
                out.push(j);
                i = i + 1;
            }
            let r = Json::Arr(out);
            proof {
                assert(json_of_array(*a) is Some);
                assert(jview(r)->Arr_0 =~= json_of_array(*a)->0->Arr_0);
            }
            Ok(r)
        },
        ArrayValue::List(v) => {
            let mut out: Vec<Json> = Vec::new();
            let mut i: usize = 0;
            while i < v.len()
                invariant
                    i <= v@.len(),
                    out@.len() == i,
                    *a == ArrayValue::List(*v),
                    array_wf(*a),
                    forall|j: int|
                        0 <= j < i ==> json_of_value(#[trigger] arr_values(*a)[j]) is Some
                            && out@[j]@ == json_of_value(arr_values(*a)[j])->0,
                decreases v@.len() - i,
            {
                proof {
                    assert(value_wf(arr_values(*a)[i as int]));
                }
                let ev = Value::List(crate::value::list_content_clone(&v[i]));
                proof {
                    assert(vview(ev)->List_0 =~= vview(Value::List(v@[i as int]))->List_0);
                    assert(ev@ == arr_values(*a)[i as int]);
                }
                let j = match crate::json::value_to_json(&ev) {
                    Ok(j) => j,
                    Err(e) => {
                        proof {
                            assert(json_of_array(*a) is None);
                        }
                        return Err(e);
                    },
                };
                out.push(j);
                i = i + 1;
            }
            let r = Json::Arr(out);
            proof {
                assert(json_of_array(*a) is Some);
                assert(jview(r)->Arr_0 =~= json_of_array(*a)->0->Arr_0);
            }
            Ok(r)
        },
        ArrayValue::Array(v) => {
            let mut out: Vec<Json> = Vec::new();
            let mut i: usize = 0;
            while i < v.len()
                invariant
                    i <= v@.len(),
                    out@.len() == i,
                    *a == ArrayValue::Array(*v),
                    array_wf(*a),
                    forall|j: int|
                        0 <= j < i ==> json_of_array(#[trigger] (*a)->Array_0@[j]) is Some
                            && out@[j]@ == json_of_array((*a)->Array_0@[j])->0,
                decreases v@.len() - i,
            {
                proof {
                    assert(decreases_to!(*a => (*a)->Array_0@[i as int]));
                    assert(array_wf((*a)->Array_0@[i as int]));
                }
                let j = match array_to_json(&v[i]) {
                    Ok(j) => j,
                    Err(e) => {
                        proof {
                            assert(json_of_array(*a) is None);
                        }
                        return Err(e);
                    },
                };
                out.push(j);
                i = i + 1;
            }
            let r = Json::Arr(out);
            proof {
                assert(json_of_array(*a) is Some);
                assert(jview(r)->Arr_0 =~= json_of_array(*a)->0->Arr_0);
            }
            Ok(r)
        },
    }
}

} // verus!
