//! JSON projection: the stable export of values for downstream
//! consumers.  Numbers ride through their canonical texts so precision is
//! never lost; dates, times, intervals, addresses and identifiers export
//! as canonical strings; containers recurse structurally.

use std::str::FromStr;

use vstd::prelude::*;

use crate::calendar::{date_str, inet_str, interval_str, time_str, timestamp_str};
use crate::decimal::dec_str;
use crate::digits::{dec_digits, hex_fixed, int_digits};
use crate::error::{Error, ValueError};
use crate::value::{value_wf, vview, Value, ValueV};

verus! {

/// A JSON document: numbers carried as their texts.
#[derive(Debug, PartialEq)]
pub enum Json {
    Null,
    Bool(bool),
    Num(String),
    Str(String),
    Arr(Vec<Json>),
    Obj(Vec<(String, Json)>),
}

/// The mathematical shape of a JSON document.
pub enum JsonV {
    Null,
    Bool(bool),
    Num(Seq<char>),
    Str(Seq<char>),
    Arr(Seq<JsonV>),
    Obj(Seq<(Seq<char>, JsonV)>),
}

pub open spec fn jview(j: Json) -> JsonV
    decreases j,
{
    match j {
        Json::Null => JsonV::Null,
        Json::Bool(b) => JsonV::Bool(b),
        Json::Num(s) => JsonV::Num(s@),
        Json::Str(s) => JsonV::Str(s@),
        Json::Arr(v) => JsonV::Arr(
            Seq::new(
                v@.len(),
                |i: int|
                    if 0 <= i < j->Arr_0@.len() {
                        jview(j->Arr_0@[i])
                    } else {
                        JsonV::Null
                    },
            ),
        ),
        Json::Obj(v) => JsonV::Obj(
            Seq::new(
                v@.len(),
                |i: int|
                    if 0 <= i < j->Obj_0@.len() {
                        (j->Obj_0@[i].0@, jview(j->Obj_0@[i].1))
                    } else {
                        (Seq::<char>::empty(), JsonV::Null)
                    },
            ),
        ),
    }
}

impl View for Json {
    type V = JsonV;

    open spec fn view(&self) -> JsonV {
        jview(*self)
    }
}

/// Whether the JSON number grammar accepts a text.  Only the trusted
/// wrapper below says anything about this name.
pub uninterp spec fn json_number_accepts(s: Seq<char>) -> bool;

/// Relies on `serde_json::Number::from_str`: with exact number support,
/// whether a text parses as a JSON number depends on the characters
/// alone.
#[verifier::external_body]
fn json_number_ok(s: &str) -> (r: bool)
    ensures
        r == json_number_accepts(s@),
{
    serde_json::Number::from_str(s).is_ok()
}

/// The canonical hyphenated text of a 128-bit identifier: five groups of
/// lowercase hexadecimal digits, eight, four, four, four and twelve long.
pub open spec fn uuid_str(u: u128) -> Seq<char> {
    hex_fixed((u as nat) / 0x1000000000000000000000000, 8) + seq!['-'] + hex_fixed(
        ((u as nat) / 0x100000000000000000000) % 0x10000,
        4,
    ) + seq!['-'] + hex_fixed(((u as nat) / 0x10000000000000000) % 0x10000, 4) + seq!['-']
        + hex_fixed(((u as nat) / 0x1000000000000) % 0x10000, 4) + seq!['-'] + hex_fixed(
        (u as nat) % 0x1000000000000,
        12,
    )
}

/// Relies on `uuid::Uuid::from_u128` and its hyphenated form: the
/// standard five-group lowercase hexadecimal text of the 128 bits.
#[verifier::external_body]
fn uuid_hyphenated(u: u128) -> (r: String)
    ensures
        r@ == uuid_str(u),
{
    let mut out = String::new();
    out.push_str(uuid::Uuid::from_u128(u).hyphenated().to_string().as_str());
    out
}

/// The canonical number text of a scalar numeric value.
pub open spec fn num_text(v: ValueV) -> Seq<char> {
    match v {
        ValueV::I8(x) => int_digits(x as int),
        ValueV::I16(x) => int_digits(x as int),
        ValueV::I32(x) => int_digits(x as int),
        ValueV::I64(x) => int_digits(x as int),
        ValueV::I128(x) => int_digits(x as int),
        ValueV::U8(x) => dec_digits(x as nat),
        ValueV::U16(x) => dec_digits(x as nat),
        ValueV::U32(x) => dec_digits(x as nat),
        ValueV::U64(x) => dec_digits(x as nat),
        ValueV::U128(x) => dec_digits(x as nat),
        ValueV::Decimal(d) => dec_str(d),
        _ => Seq::<char>::empty(),
    }
}

/// Whether a numeric value must pass the JSON number grammar before
/// export: the widths beyond the native JSON number range ride through a
/// text parse, and a refusal is the designated unreachable failure.
pub open spec fn is_big_num(v: ValueV) -> bool {
    v is I128 || v is U128 || v is Decimal
}

/// The JSON export of one value: `None` only where the JSON number
/// grammar refuses a big number's canonical text.
pub open spec fn json_of_value(v: ValueV) -> Option<JsonV>
    decreases v,
{
    match v {
        ValueV::Null => Some(JsonV::Null),
        ValueV::Bool(b) => Some(JsonV::Bool(b)),
        ValueV::Str(s) => Some(JsonV::Str(s)),
        ValueV::Bytea(b) => Some(
            JsonV::Arr(Seq::new(b.len(), |i: int| JsonV::Num(dec_digits(b[i] as nat)))),
        ),
        ValueV::Inet(a) => Some(JsonV::Str(inet_str(a))),
        ValueV::Date(d) => Some(JsonV::Str(date_str(d))),
        ValueV::Timestamp(t) => Some(JsonV::Str(timestamp_str(t))),
        ValueV::Time(t) => Some(JsonV::Str(time_str(t))),
        ValueV::Interval(iv) => Some(JsonV::Str(interval_str(iv))),
        ValueV::Uuid(u) => Some(JsonV::Str(uuid_str(u))),
        ValueV::Dict(m) => {
            if forall|i: int| 0 <= i < m.len() ==> json_of_value(#[trigger] v->Dict_0[i].1) is Some {
                Some(
                    JsonV::Obj(
                        Seq::new(
                            m.len(),
                            |i: int|
                                if 0 <= i < v->Dict_0.len() {
                                    (v->Dict_0[i].0, json_of_value(v->Dict_0[i].1)->0)
                                } else {
                                    (Seq::<char>::empty(), JsonV::Null)
                                },
                        ),
                    ),
                )
            } else {
                None
            }
        },
        ValueV::List(l) => {
            if forall|i: int| 0 <= i < l.len() ==> json_of_value(#[trigger] v->List_0[i]) is Some {
                Some(
                    JsonV::Arr(
                        Seq::new(
                            l.len(),
                            |i: int|
                                if 0 <= i < v->List_0.len() {
                                    json_of_value(v->List_0[i])->0
                                } else {
                                    JsonV::Null
                                },
                        ),
                    ),
                )
            } else {
                None
            }
        },
        _ => {
            if is_big_num(v) {
                if json_number_accepts(num_text(v)) {
                    Some(JsonV::Num(num_text(v)))
                } else {
                    None
                }
            } else {
                Some(JsonV::Num(num_text(v)))
            }
        },
    }
}

/// Exports one value as JSON; the one failure is a big number's text the
/// JSON number grammar refuses, surfaced as the designated unreachable
/// error rather than a crash.
pub fn value_to_json(v: &Value) -> (r: Result<Json, Error>)
    requires
        value_wf(v@),
    ensures
        match json_of_value(v@) {
            Some(j) => r is Ok && r->Ok_0@ == j,
            None => r matches Err(Error::Value(ValueError::UnreachableJsonNumberParseFailure(_))),
        },
    decreases *v,
{
    match v {
        Value::Null => Ok(Json::Null),
        Value::Bool(b) => Ok(Json::Bool(*b)),
        Value::Str(s) => Ok(Json::Str(s.clone())),
        Value::Bytea(b) => {
            let mut out: Vec<Json> = Vec::new();
            let mut i: usize = 0;
            while i < b.len()
                invariant
                    i <= b@.len(),
                    out@.len() == i,
                    forall|j: int|
                        0 <= j < i ==> #[trigger] out@[j]@ == JsonV::Num(
                            dec_digits(b@[j] as nat),
                        ),
                decreases b@.len() - i,
            {
                out.push(Json::Num(crate::digits::u128_to_string(b[i] as u128)));
                i = i + 1;
            }
            let r = Json::Arr(out);
            proof {
                assert(v@->Bytea_0 == b@);
                assert forall|k: int|
                    0 <= k < out@.len() implies jview(r)->Arr_0[k] == json_of_value(
                    v@,
                )->0->Arr_0[k] by {
                    assert(jview(r)->Arr_0[k] == jview(out@[k]));
                    assert(out@[k]@ == JsonV::Num(dec_digits(b@[k] as nat)));
                }
                assert(jview(r)->Arr_0 =~= json_of_value(v@)->0->Arr_0);
            }
            Ok(r)
        },
        Value::Inet(a) => Ok(Json::Str(crate::calendar::inet_to_string(a))),
        Value::Date(d) => Ok(Json::Str(crate::calendar::date_to_string(d))),
        Value::Timestamp(t) => Ok(Json::Str(crate::calendar::timestamp_to_string(t))),
        Value::Time(t) => Ok(Json::Str(crate::calendar::time_to_string(t))),
        Value::Interval(iv) => Ok(Json::Str(crate::calendar::interval_to_string(iv))),
        Value::Uuid(u) => Ok(Json::Str(uuid_hyphenated(*u))),
        Value::I8(x) => Ok(Json::Num(crate::digits::i128_to_string(*x as i128))),
        Value::I16(x) => Ok(Json::Num(crate::digits::i128_to_string(*x as i128))),
        Value::I32(x) => Ok(Json::Num(crate::digits::i128_to_string(*x as i128))),
        Value::I64(x) => Ok(Json::Num(crate::digits::i128_to_string(*x as i128))),
        Value::U8(x) => Ok(Json::Num(crate::digits::u128_to_string(*x as u128))),
        Value::U16(x) => Ok(Json::Num(crate::digits::u128_to_string(*x as u128))),
        Value::U32(x) => Ok(Json::Num(crate::digits::u128_to_string(*x as u128))),
        Value::U64(x) => Ok(Json::Num(crate::digits::u128_to_string(*x as u128))),
        Value::I128(x) => {
            let t = if *x == i128::MIN {
                proof {
                    reveal_strlit("-");
                }
                let mut s = "-".to_owned();
                s.append(
                    crate::digits::u128_to_string(
                        0x80000000000000000000000000000000u128,
                    ).as_str(),
                );
                proof {
                    assert(s@ =~= int_digits(i128::MIN as int));
                }
                s
            } else {
                crate::digits::i128_to_string(*x)
            };
            big_num_json(t)
        },
        Value::U128(x) => big_num_json(crate::digits::u128_to_string(*x)),
        Value::Decimal(d) => big_num_json(crate::decimal::dec_to_string(*d)),
        Value::Dict(m) => {
            let mut out: Vec<(String, Json)> = Vec::new();
            let mut i: usize = 0;
            while i < m.len()
                invariant
                    i <= m@.len(),
                    out@.len() == i,
                    *v == Value::Dict(*m),
                    value_wf(v@),
                    forall|j: int|
                        0 <= j < i ==> json_of_value(#[trigger] vview(*v)->Dict_0[j].1) is Some
                            && out@[j].0@ == m@[j].0@ && out@[j].1@ == json_of_value(
                            vview(*v)->Dict_0[j].1,
                        )->0,
                decreases m@.len() - i,
            {
                proof {
                    assert(decreases_to!(*v => (*v)->Dict_0@[i as int].1));
                    assert(vview(*v)->Dict_0[i as int].1 == (*v)->Dict_0@[i as int].1@);
                    assert(value_wf(vview(*v)->Dict_0[i as int].1));
                }
                let j = match value_to_json(&m[i].1) {
                    Ok(j) => j,
                    Err(e) => {
                        proof {
                            assert(json_of_value(v@) is None);
                        }
                        return Err(e);
                    },
                };
                out.push((m[i].0.clone(), j));
                i = i + 1;
            }
            let r = Json::Obj(out);
            proof {
                assert(json_of_value(v@) is Some);
                assert(jview(r)->Obj_0 =~= json_of_value(v@)->0->Obj_0);
            }
            Ok(r)
        },
        Value::List(l) => {
            let mut out: Vec<Json> = Vec::new();
            let mut i: usize = 0;
            while i < l.len()
                invariant
                    i <= l@.len(),
                    out@.len() == i,
                    *v == Value::List(*l),
                    value_wf(v@),
                    forall|j: int|
                        0 <= j < i ==> json_of_value(#[trigger] vview(*v)->List_0[j]) is Some
                            && out@[j]@ == json_of_value(vview(*v)->List_0[j])->0,
                decreases l@.len() - i,
            {
                proof {
                    assert(decreases_to!(*v => (*v)->List_0@[i as int]));
                    assert(vview(*v)->List_0[i as int] == (*v)->List_0@[i as int]@);
                    assert(value_wf(vview(*v)->List_0[i as int]));
                }
                let j = match value_to_json(&l[i]) {
                    Ok(j) => j,
                    Err(e) => {
                        proof {
                            assert(json_of_value(v@) is None);
                        }
                        return Err(e);
                    },
                };
                out.push(j);
                i = i + 1;
            }
            let r = Json::Arr(out);
            proof {
                assert(json_of_value(v@) is Some);
                assert(jview(r)->Arr_0 =~= json_of_value(v@)->0->Arr_0);
            }
            Ok(r)
        },
    }
}

/// Funnels a big number's canonical text through the JSON number grammar.
fn big_num_json(t: String) -> (r: Result<Json, Error>)
    ensures
        json_number_accepts(t@) ==> r is Ok && r->Ok_0@ == JsonV::Num(t@),
        !json_number_accepts(t@) ==> r matches Err(
            Error::Value(ValueError::UnreachableJsonNumberParseFailure(_)),
        ),
{
    if json_number_ok(t.as_str()) {
        Ok(Json::Num(t))
    } else {
        Err(Error::Value(ValueError::UnreachableJsonNumberParseFailure(t)))
    }
}

/// The serialized text of a JSON document: compact form, string contents
/// written verbatim between quotes.
pub open spec fn json_text(j: JsonV) -> Seq<char>
    decreases j, 0int,
{
    match j {
        JsonV::Null => seq!['n', 'u', 'l', 'l'],
        JsonV::Bool(b) => if b {
            seq!['t', 'r', 'u', 'e']
        } else {
            seq!['f', 'a', 'l', 's', 'e']
        },
        JsonV::Num(s) => s,
        JsonV::Str(s) => seq!['"'] + s + seq!['"'],
        JsonV::Arr(v) => seq!['['] + json_list_text(v) + seq![']'],
        JsonV::Obj(v) => seq!['{'] + json_obj_text(v) + seq!['}'],
    }
}

pub open spec fn json_list_text(v: Seq<JsonV>) -> Seq<char>
    decreases v, 1int,
{
    if v.len() == 0 {
        Seq::<char>::empty()
    } else if v.len() == 1 {
        json_text(v[0])
    } else {
        json_text(v[0]) + seq![','] + json_list_text(v.skip(1))
    }
}

pub open spec fn json_obj_text(v: Seq<(Seq<char>, JsonV)>) -> Seq<char>
    decreases v, 1int,
{
    if v.len() == 0 {
        Seq::<char>::empty()
    } else if v.len() == 1 {
        seq!['"'] + v[0].0 + seq!['"', ':'] + json_text(v[0].1)
    } else {
        seq!['"'] + v[0].0 + seq!['"', ':'] + json_text(v[0].1) + seq![','] + json_obj_text(
            v.skip(1),
        )
    }
}

/// Appending one element extends a list text by a comma and its text.
proof fn lemma_json_list_push(v: Seq<JsonV>, x: JsonV)
    ensures
        json_list_text(v.push(x)) == if v.len() == 0 {
            json_text(x)
        } else {
            json_list_text(v) + seq![','] + json_text(x)
        },
    decreases v.len(),
{
    let p = v.push(x);
    if v.len() == 0 {
        assert(p.len() == 1);
        assert(p[0] == x);
    } else {
        assert(p[0] == v[0]);
        assert(p.skip(1) =~= v.skip(1).push(x));
        lemma_json_list_push(v.skip(1), x);
        if v.len() == 1 {
            assert(json_list_text(v) == json_text(v[0]));
            assert(json_list_text(p) == json_text(p[0]) + seq![','] + json_list_text(p.skip(1)));
            assert(json_list_text(p.skip(1)) == json_text(x));
            assert(json_list_text(v) + seq![','] + json_text(x) =~= json_text(p[0]) + seq![',']
                + json_list_text(p.skip(1)));
        } else {
            assert(json_list_text(p) == json_text(p[0]) + seq![','] + json_list_text(p.skip(1)));
            assert(json_list_text(v) == json_text(v[0]) + seq![','] + json_list_text(v.skip(1)));
            assert(json_list_text(v) + seq![','] + json_text(x) =~= json_text(p[0]) + seq![',']
                + (json_list_text(v.skip(1)) + seq![','] + json_text(x)));
        }
    }
}

/// Appending one member extends an object text likewise.
proof fn lemma_json_obj_push(v: Seq<(Seq<char>, JsonV)>, x: (Seq<char>, JsonV))
    ensures
        json_obj_text(v.push(x)) == if v.len() == 0 {
            seq!['"'] + x.0 + seq!['"', ':'] + json_text(x.1)
        } else {
            json_obj_text(v) + seq![','] + (seq!['"'] + x.0 + seq!['"', ':'] + json_text(x.1))
        },
    decreases v.len(),
{
    let p = v.push(x);
    if v.len() == 0 {
        assert(p.len() == 1);
        assert(p[0] == x);
    } else {
        assert(p[0] == v[0]);
        assert(p.skip(1) =~= v.skip(1).push(x));
        lemma_json_obj_push(v.skip(1), x);
        let head = seq!['"'] + v[0].0 + seq!['"', ':'] + json_text(v[0].1);
        let tail = seq!['"'] + x.0 + seq!['"', ':'] + json_text(x.1);
        if v.len() == 1 {
            assert(json_obj_text(p.skip(1)) == tail);
            assert(json_obj_text(v) + seq![','] + tail =~= head + seq![','] + json_obj_text(
                p.skip(1),
            ));
        } else {
            assert(json_obj_text(p) == head + seq![','] + json_obj_text(p.skip(1)));
            assert(json_obj_text(v) == head + seq![','] + json_obj_text(v.skip(1)));
            assert(json_obj_text(v) + seq![','] + tail =~= head + seq![','] + (json_obj_text(
                v.skip(1),
            ) + seq![','] + tail));
        }
    }
}

/// Serializes a JSON document as its compact text.
pub fn json_to_string(j: &Json) -> (r: String)
    ensures
        r@ == json_text(j@),
    decreases *j,
{
    match j {
        Json::Null => {
            proof {
                reveal_strlit("null");
            }
            let s = "null".to_owned();
            proof {
                assert(s@ =~= json_text(j@));
            }
            s
        },
        Json::Bool(b) => {
            proof {
                reveal_strlit("true");
                reveal_strlit("false");
            }
            let s = if *b {
                "true".to_owned()
            } else {
                "false".to_owned()
            };
            proof {
                assert(s@ =~= json_text(j@));
            }
            s
        },
        Json::Num(s) => s.clone(),
        Json::Str(s) => {
            proof {
                reveal_strlit("\"");
            }
            let mut out = "\"".to_owned();
            out.append(s.as_str());
            out.append("\"");
            proof {
                assert(out@ =~= json_text(j@));
            }
            out
        },
        Json::Arr(v) => {
            proof {
                reveal_strlit("[");
                reveal_strlit("]");
                reveal_strlit(",");
            }
            let mut out = "[".to_owned();
            let mut i: usize = 0;
            let ghost elems = jview(*j)->Arr_0;
            proof {
                assert(elems.len() == v@.len());
                assert(elems.take(0) =~= Seq::<JsonV>::empty());
            }
            while i < v.len()
                invariant
                    i <= v@.len(),
                    *j == Json::Arr(*v),
                    elems == jview(*j)->Arr_0,
                    elems.len() == v@.len(),
                    forall|k: int| 0 <= k < v@.len() ==> elems[k] == (#[trigger] v@[k])@,
                    out@ == seq!['['] + json_list_text(elems.take(i as int)),
                decreases v@.len() - i,
            {
                proof {
                    reveal_strlit(",");
                    assert(","@ =~= seq![',']);
                    assert(decreases_to!(*j => (*j)->Arr_0@[i as int]));
                }
                if i > 0 {
                    out.append(",");
                }
                let piece = json_to_string(&v[i]);
                out.append(piece.as_str());
                proof {
                    assert(elems.take(i + 1) =~= elems.take(i as int).push(elems[i as int]));
                    lemma_json_list_push(elems.take(i as int), elems[i as int]);
                    assert(out@ =~= seq!['['] + json_list_text(elems.take(i + 1)));
                }
                i = i + 1;
            }
            out.append("]");
            proof {
                assert(elems.take(elems.len() as int) =~= elems);
                assert(out@ =~= json_text(j@));
            }
            out
        },
        Json::Obj(v) => {
            proof {
                reveal_strlit("{");
                reveal_strlit("}");
                reveal_strlit(",");
                reveal_strlit("\"");
                reveal_strlit("\":");
            }
            let mut out = "{".to_owned();
            let mut i: usize = 0;
            let ghost elems = jview(*j)->Obj_0;
            proof {
                assert(elems.len() == v@.len());
                assert(elems.take(0) =~= Seq::<(Seq<char>, JsonV)>::empty());
            }
            while i < v.len()
                invariant
                    i <= v@.len(),
                    *j == Json::Obj(*v),
                    elems == jview(*j)->Obj_0,
                    elems.len() == v@.len(),
                    forall|k: int|
                        0 <= k < v@.len() ==> elems[k].0 == (#[trigger] v@[k]).0@ && elems[k].1
                            == v@[k].1@,
                    out@ == seq!['{'] + json_obj_text(elems.take(i as int)),
                decreases v@.len() - i,
            {
                proof {
                    reveal_strlit(",");
                    reveal_strlit("\"");
                    reveal_strlit("\":");
                    assert(","@ =~= seq![',']);
                    assert("\""@ =~= seq!['"']);
                    assert("\":"@ =~= seq!['"', ':']);
                    assert(decreases_to!(*j => (*j)->Obj_0@[i as int].1));
                }
                if i > 0 {
                    out.append(",");
                }
                out.append("\"");
                out.append(v[i].0.as_str());
                out.append("\":");
                let piece = json_to_string(&v[i].1);
                out.append(piece.as_str());
                proof {
                    assert(elems.take(i + 1) =~= elems.take(i as int).push(elems[i as int]));
                    lemma_json_obj_push(elems.take(i as int), elems[i as int]);
                    assert(out@ =~= seq!['{'] + json_obj_text(elems.take(i + 1)));
                }
                i = i + 1;
            }
            out.append("}");
            proof {
                assert(elems.take(elems.len() as int) =~= elems);
                assert(out@ =~= json_text(j@));
            }
            out
        },
    }
}

} // verus!