//! The JSON values that travel over the line-delimited JSON-RPC transport,
//! with a verified parser and serializer on bytes.
//!
//! Numbers keep their literal token, so a reply echoes a request's `id`
//! byte for byte; strings hold their decoded UTF-8 bytes; objects keep their
//! members in order of appearance.

use vstd::prelude::*;
use vstd::string::StrSliceExecFns;
use crate::encoding::{hex_digit, hex_val, hex_val_of, push_all, utf8_bytes};

verus! {

/// A JSON value (exec form).
#[verifier::ext_equal]
pub enum JsonValue {
    Null,
    Bool(bool),
    /// A number, as its literal decimal token.
    Num(Vec<u8>),
    /// A string, as its decoded UTF-8 bytes.
    Str(Vec<u8>),
    Arr(Vec<JsonValue>),
    /// Members in order of appearance; a lookup takes the first binding.
    Obj(Vec<(Vec<u8>, JsonValue)>),
}

/// A JSON value (specification form).
#[verifier::ext_equal]
pub enum JSpec {
    Null,
    Bool(bool),
    Num(Seq<u8>),
    Str(Seq<u8>),
    Arr(Seq<JSpec>),
    Obj(Seq<(Seq<u8>, JSpec)>),
}

/// The specification view of an exec JSON value.
pub open spec fn jv_view(v: JsonValue) -> JSpec
    decreases v,
{
    match v {
        JsonValue::Null => JSpec::Null,
        JsonValue::Bool(b) => JSpec::Bool(b),
        JsonValue::Num(n) => JSpec::Num(n@),
        JsonValue::Str(s) => JSpec::Str(s@),
        JsonValue::Arr(items) => JSpec::Arr(jarr_view(items@)),
        JsonValue::Obj(members) => JSpec::Obj(jobj_view(members@)),
    }
}

pub open spec fn jarr_view(s: Seq<JsonValue>) -> Seq<JSpec>
    decreases s,
{
    if s.len() == 0 {
        Seq::empty()
    } else {
        seq![jv_view(s[0])] + jarr_view(s.drop_first())
    }
}

pub open spec fn jobj_view(s: Seq<(Vec<u8>, JsonValue)>) -> Seq<(Seq<u8>, JSpec)>
    decreases s,
{
    if s.len() == 0 {
        Seq::empty()
    } else {
        seq![(s[0].0@, jv_view(s[0].1))] + jobj_view(s.drop_first())
    }
}

impl View for JsonValue {
    type V = JSpec;

    open spec fn view(&self) -> JSpec {
        jv_view(*self)
    }
}

pub broadcast proof fn lemma_jarr_view_index(s: Seq<JsonValue>)
    ensures
        (#[trigger] jarr_view(s)).len() == s.len(),
        forall|i: int| 0 <= i < s.len() ==> jarr_view(s)[i] == jv_view(#[trigger] s[i]),
    decreases s,
{
    if s.len() > 0 {
        lemma_jarr_view_index(s.drop_first());
        assert forall|i: int| 0 <= i < s.len() implies jarr_view(s)[i] == jv_view(
            #[trigger] s[i],
        ) by {
            if i > 0 {
                assert(jarr_view(s)[i] == jarr_view(s.drop_first())[i - 1]);
                assert(s.drop_first()[i - 1] == s[i]);
            }
        }
    }
}

pub broadcast proof fn lemma_jobj_view_index(s: Seq<(Vec<u8>, JsonValue)>)
    ensures
        (#[trigger] jobj_view(s)).len() == s.len(),
        forall|i: int|
            0 <= i < s.len() ==> jobj_view(s)[i] == ((#[trigger] s[i]).0@, jv_view(s[i].1)),
    decreases s,
{
    if s.len() > 0 {
        lemma_jobj_view_index(s.drop_first());
        assert forall|i: int|
            0 <= i < s.len() implies jobj_view(s)[i] == ((#[trigger] s[i]).0@, jv_view(
            s[i].1,
        )) by {
            if i > 0 {
                assert(jobj_view(s)[i] == jobj_view(s.drop_first())[i - 1]);
                assert(s.drop_first()[i - 1] == s[i]);
            }
        }
    }
}

proof fn lemma_jarr_view_push(s: Seq<JsonValue>, v: JsonValue)
    ensures
        jarr_view(s.push(v)) == jarr_view(s) + seq![jv_view(v)],
    decreases s,
{
    if s.len() == 0 {
        assert(s.push(v)[0] == v);
        assert(s.push(v).len() == 1);
        assert(s.push(v).drop_first() =~= Seq::<JsonValue>::empty());
        assert(jarr_view(s.push(v)) == seq![jv_view(v)] + jarr_view(Seq::<JsonValue>::empty()));
        assert(jarr_view(Seq::<JsonValue>::empty()) =~= Seq::<JSpec>::empty());
        assert(jarr_view(s.push(v)) =~= jarr_view(s) + seq![jv_view(v)]);
    } else {
        assert(s.push(v)[0] == s[0]);
        assert(s.push(v).drop_first() =~= s.drop_first().push(v));
        lemma_jarr_view_push(s.drop_first(), v);
        assert(jarr_view(s.push(v)) =~= jarr_view(s) + seq![jv_view(v)]);
    }
}

proof fn lemma_jobj_view_push(s: Seq<(Vec<u8>, JsonValue)>, k: Vec<u8>, v: JsonValue)
    ensures
        jobj_view(s.push((k, v))) == jobj_view(s) + seq![(k@, jv_view(v))],
    decreases s,
{
    if s.len() == 0 {
        assert(s.push((k, v))[0] == (k, v));
        assert(s.push((k, v)).len() == 1);
        assert(s.push((k, v)).drop_first() =~= Seq::<(Vec<u8>, JsonValue)>::empty());
        assert(jobj_view(s.push((k, v))) == seq![(k@, jv_view(v))] + jobj_view(
            Seq::<(Vec<u8>, JsonValue)>::empty(),
        ));
        assert(jobj_view(Seq::<(Vec<u8>, JsonValue)>::empty()) =~= Seq::<(Seq<u8>, JSpec)>::empty());
        assert(jobj_view(s.push((k, v))) =~= jobj_view(s) + seq![(k@, jv_view(v))]);
    } else {
        assert(s.push((k, v))[0] == s[0]);
        assert(s.push((k, v)).drop_first() =~= s.drop_first().push((k, v)));
        lemma_jobj_view_push(s.drop_first(), k, v);
        assert(jobj_view(s.push((k, v))) =~= jobj_view(s) + seq![(k@, jv_view(v))]);
    }
}

// ------------------------------------------------------------------
// Serialization
// ------------------------------------------------------------------

/// The serialization of one string byte: `"` and `\` and control characters
/// are escaped, everything else passes through.
pub open spec fn esc_byte(b: u8) -> Seq<u8> {
    if b == 0x22 {
        seq![0x5cu8, 0x22u8]
    } else if b == 0x5c {
        seq![0x5cu8, 0x5cu8]
    } else if b == 0x08 {
        seq![0x5cu8, 0x62u8]
    } else if b == 0x0c {
        seq![0x5cu8, 0x66u8]
    } else if b == 0x0a {
        seq![0x5cu8, 0x6eu8]
    } else if b == 0x0d {
        seq![0x5cu8, 0x72u8]
    } else if b == 0x09 {
        seq![0x5cu8, 0x74u8]
    } else if b < 0x20 {
        seq![0x5cu8, 0x75u8, 0x30u8, 0x30u8, hex_digit(b / 16), hex_digit(b % 16)]
    } else {
        seq![b]
    }
}

/// The escaped body of a serialized string.
pub open spec fn esc(s: Seq<u8>) -> Seq<u8>
    decreases s.len(),
{
    if s.len() == 0 {
        Seq::empty()
    } else {
        esc_byte(s[0]) + esc(s.drop_first())
    }
}

/// A serialized string: quoted and escaped.
pub open spec fn ser_string(s: Seq<u8>) -> Seq<u8> {
    seq![0x22u8] + esc(s) + seq![0x22u8]
}

/// The serialization of a JSON value, in the compact form the dispatcher
/// writes: no added whitespace, members and items in order.
pub open spec fn ser(v: JSpec) -> Seq<u8>
    decreases v,
{
    match v {
        JSpec::Null => seq![0x6eu8, 0x75u8, 0x6cu8, 0x6cu8],
        JSpec::Bool(b) => if b {
            seq![0x74u8, 0x72u8, 0x75u8, 0x65u8]
        } else {
            seq![0x66u8, 0x61u8, 0x6cu8, 0x73u8, 0x65u8]
        },
        JSpec::Num(lx) => lx,
        JSpec::Str(s) => ser_string(s),
        JSpec::Arr(items) => seq![0x5bu8] + ser_items(items) + seq![0x5du8],
        JSpec::Obj(members) => seq![0x7bu8] + ser_members(members) + seq![0x7du8],
    }
}

pub open spec fn ser_items(s: Seq<JSpec>) -> Seq<u8>
    decreases s,
{
    if s.len() == 0 {
        Seq::empty()
    } else if s.len() == 1 {
        ser(s[0])
    } else {
        ser(s[0]) + seq![0x2cu8] + ser_items(s.drop_first())
    }
}

pub open spec fn ser_members(s: Seq<(Seq<u8>, JSpec)>) -> Seq<u8>
    decreases s,
{
    if s.len() == 0 {
        Seq::empty()
    } else if s.len() == 1 {
        ser_string(s[0].0) + seq![0x3au8] + ser(s[0].1)
    } else {
        ser_string(s[0].0) + seq![0x3au8] + ser(s[0].1) + seq![0x2cu8] + ser_members(
            s.drop_first(),
        )
    }
}

proof fn lemma_esc_push(s: Seq<u8>, b: u8)
    ensures
        esc(s.push(b)) == esc(s) + esc_byte(b),
    decreases s.len(),
{
    if s.len() == 0 {
        assert(s.push(b)[0] == b);
        assert(s.push(b).len() == 1);
        assert(s.push(b).drop_first() =~= Seq::<u8>::empty());
        assert(esc(s.push(b)) == esc_byte(b) + esc(Seq::<u8>::empty()));
        assert(esc(Seq::<u8>::empty()) =~= Seq::<u8>::empty());
        assert(esc(s.push(b)) =~= esc(s) + esc_byte(b));
    } else {
        assert(s.push(b)[0] == s[0]);
        assert(s.push(b).drop_first() =~= s.drop_first().push(b));
        lemma_esc_push(s.drop_first(), b);
        assert(esc(s.push(b)) =~= esc(s) + esc_byte(b));
    }
}

/// Write the escaped, quoted form of a string body.
fn write_string(out: &mut Vec<u8>, s: &Vec<u8>)
    ensures
        final(out)@ == old(out)@ + ser_string(s@),
{
    out.push(0x22);
    let mut i: usize = 0;
    proof {
        assert(s@.take(0) =~= Seq::<u8>::empty());
        assert(out@ =~= old(out)@ + seq![0x22u8] + esc(s@.take(0)));
    }
    while i < s.len()
        invariant
            i <= s@.len(),
            out@ == old(out)@ + seq![0x22u8] + esc(s@.take(i as int)),
        decreases s@.len() - i,
    {
        let b = s[i];
        proof {
            lemma_esc_push(s@.take(i as int), b);
            assert(s@.take(i as int).push(b) =~= s@.take(i + 1));
        }
        if b == 0x22 {
            out.push(0x5c);
            out.push(0x22);
        } else if b == 0x5c {
            out.push(0x5c);
            out.push(0x5c);
        } else if b == 0x08 {
            out.push(0x5c);
            out.push(0x62);
        } else if b == 0x0c {
            out.push(0x5c);
            out.push(0x66);
        } else if b == 0x0a {
            out.push(0x5c);
            out.push(0x6e);
        } else if b == 0x0d {
            out.push(0x5c);
            out.push(0x72);
        } else if b == 0x09 {
            out.push(0x5c);
            out.push(0x74);
        } else if b < 0x20 {
            out.push(0x5c);
            out.push(0x75);
            out.push(0x30);
            out.push(0x30);
            out.push(crate::encoding::hex_digit_of(b / 16));
            out.push(crate::encoding::hex_digit_of(b % 16));
        } else {
            out.push(b);
        }
        proof {
            assert(out@ =~= old(out)@ + seq![0x22u8] + esc(s@.take(i + 1)));
        }
        i = i + 1;
    }
    out.push(0x22);
    proof {
        assert(s@.take(s@.len() as int) =~= s@);
        assert(out@ =~= old(out)@ + ser_string(s@));
    }
}

/// Write the serialization of a value after what is already in `out`.
#[verifier::loop_isolation(false)]
pub fn write_json(v: &JsonValue, out: &mut Vec<u8>)
    ensures
        final(out)@ == old(out)@ + ser(v@),
    decreases *v,
{
    match v {
        JsonValue::Null => {
            out.push(0x6e);
            out.push(0x75);
            out.push(0x6c);
            out.push(0x6c);
            proof {
                assert(out@ =~= old(out)@ + ser(v@));
            }
        },
        JsonValue::Bool(b) => {
            if *b {
                out.push(0x74);
                out.push(0x72);
                out.push(0x75);
                out.push(0x65);
            } else {
                out.push(0x66);
                out.push(0x61);
                out.push(0x6c);
                out.push(0x73);
                out.push(0x65);
            }
            proof {
                assert(out@ =~= old(out)@ + ser(v@));
            }
        },
        JsonValue::Num(lx) => {
            push_all(out, lx.as_slice());
        },
        JsonValue::Str(s) => {
            write_string(out, s);
        },
        JsonValue::Arr(items) => {
            out.push(0x5b);
            let ghost base = out@;
            let mut i: usize = 0;
            proof {
                lemma_jarr_view_index(items@);
                assert(items@.take(0) =~= Seq::<JsonValue>::empty());
                assert(out@ =~= base + ser_items(jarr_view(items@.take(0))));
            }
            while i < items.len()
                invariant
                    i <= items@.len(),
                    out@ == base + ser_items(jarr_view(items@.take(i as int))),
                decreases items@.len() - i,
            {
                if i > 0 {
                    out.push(0x2c);
                }
                proof {
                    assert(v->Arr_0 == *items);
                    assert(i < v->Arr_0@.len());
                    assert(decreases_to!(*v => v->Arr_0));
                    assert(decreases_to!(v->Arr_0 => v->Arr_0@));
                    assert(decreases_to!(v->Arr_0@ => v->Arr_0@[i as int]));
                    assert(v->Arr_0@[i as int] == items@[i as int]);
                }
                write_json(&items[i], out);
                proof {
                    let ghost pre = jarr_view(items@.take(i as int));
                    let ghost x = jv_view(items@[i as int]);
                    lemma_jarr_view_push(items@.take(i as int), items@[i as int]);
                    assert(items@.take(i as int).push(items@[i as int]) =~= items@.take(i + 1));
                    assert(pre + seq![x] =~= pre.push(x));
                    lemma_ser_items_push(pre, x);
                    assert(out@ =~= base + ser_items(jarr_view(items@.take(i + 1))));
                }
                i = i + 1;
            }
            out.push(0x5d);
            proof {
                assert(items@.take(items@.len() as int) =~= items@);
                assert(out@ =~= old(out)@ + ser(v@));
            }
        },
        JsonValue::Obj(members) => {
            out.push(0x7b);
            let ghost base = out@;
            let mut i: usize = 0;
            proof {
                lemma_jobj_view_index(members@);
                assert(members@.take(0) =~= Seq::<(Vec<u8>, JsonValue)>::empty());
                assert(out@ =~= base + ser_members(jobj_view(members@.take(0))));
            }
            while i < members.len()
                invariant
                    i <= members@.len(),
                    out@ == base + ser_members(jobj_view(members@.take(i as int))),
                decreases members@.len() - i,
            {
                if i > 0 {
                    out.push(0x2c);
                }
                write_string(out, &members[i].0);
                out.push(0x3a);
                proof {
                    assert(v->Obj_0 == *members);
                    assert(i < v->Obj_0@.len());
                    assert(decreases_to!(*v => v->Obj_0));
                    assert(decreases_to!(v->Obj_0 => v->Obj_0@));
                    assert(decreases_to!(v->Obj_0@ => v->Obj_0@[i as int]));
                    assert(decreases_to!(v->Obj_0@[i as int] => v->Obj_0@[i as int].1));
                    assert(v->Obj_0@[i as int].1 == members@[i as int].1);
                }
                write_json(&members[i].1, out);
                proof {
                    let ghost m = members@[i as int];
                    let ghost pre = jobj_view(members@.take(i as int));
                    let ghost x = (m.0@, jv_view(m.1));
                    lemma_jobj_view_push(members@.take(i as int), m.0, m.1);
                    assert(members@.take(i as int).push(m) =~= members@.take(i + 1));
                    assert(pre + seq![x] =~= pre.push(x));
                    lemma_ser_members_push(pre, m.0@, jv_view(m.1));
                    assert(out@ =~= base + ser_members(jobj_view(members@.take(i + 1))));
                }
                i = i + 1;
            }
            out.push(0x7d);
            proof {
                assert(members@.take(members@.len() as int) =~= members@);
                assert(out@ =~= old(out)@ + ser(v@));
            }
        },
    }
}

proof fn lemma_ser_items_push(s: Seq<JSpec>, v: JSpec)
    ensures
        s.len() == 0 ==> ser_items(s.push(v)) == ser(v),
        s.len() > 0 ==> ser_items(s.push(v)) == ser_items(s) + seq![0x2cu8] + ser(v),
    decreases s,
{
    if s.len() == 0 {
        assert(s.push(v).len() == 1);
        assert(s.push(v)[0] == v);
    } else {
        assert(s.push(v)[0] == s[0]);
        assert(s.push(v).drop_first() =~= s.drop_first().push(v));
        lemma_ser_items_push(s.drop_first(), v);
        if s.len() == 1 {
            assert(ser_items(s.push(v)) =~= ser_items(s) + seq![0x2cu8] + ser(v));
        } else {
            assert(ser_items(s.push(v)) =~= ser_items(s) + seq![0x2cu8] + ser(v));
        }
    }
}

proof fn lemma_ser_members_push(s: Seq<(Seq<u8>, JSpec)>, k: Seq<u8>, v: JSpec)
    ensures
        s.len() == 0 ==> ser_members(s.push((k, v))) == ser_string(k) + seq![0x3au8] + ser(v),
        s.len() > 0 ==> ser_members(s.push((k, v))) == ser_members(s) + seq![0x2cu8] + ser_string(
            k,
        ) + seq![0x3au8] + ser(v),
    decreases s,
{
    if s.len() == 0 {
        assert(s.push((k, v)).len() == 1);
        assert(s.push((k, v))[0] == (k, v));
    } else {
        assert(s.push((k, v))[0] == s[0]);
        assert(s.push((k, v)).drop_first() =~= s.drop_first().push((k, v)));
        lemma_ser_members_push(s.drop_first(), k, v);
        if s.len() == 1 {
            assert(ser_members(s.push((k, v))) =~= ser_members(s) + seq![0x2cu8] + ser_string(k)
                + seq![0x3au8] + ser(v));
        } else {
            assert(ser_members(s.push((k, v))) =~= ser_members(s) + seq![0x2cu8] + ser_string(k)
                + seq![0x3au8] + ser(v));
        }
    }
}

/// Serialize a value to bytes.
pub fn to_json_bytes(v: &JsonValue) -> (r: Vec<u8>)
    ensures
        r@ == ser(v@),
{
    let mut out: Vec<u8> = Vec::new();
    write_json(v, &mut out);
    proof {
        assert(out@ =~= ser(v@));
    }
    out
}

/// Copy a JSON value.
#[verifier::loop_isolation(false)]
pub fn deep_clone(v: &JsonValue) -> (r: JsonValue)
    ensures
        r@ == v@,
    decreases *v,
{
    match v {
        JsonValue::Null => JsonValue::Null,
        JsonValue::Bool(b) => JsonValue::Bool(*b),
        JsonValue::Num(lx) => JsonValue::Num(lx.clone()),
        JsonValue::Str(s) => JsonValue::Str(s.clone()),
        JsonValue::Arr(items) => {
            let mut out: Vec<JsonValue> = Vec::new();
            let mut i: usize = 0;
            proof {
                lemma_jarr_view_index(items@);
                assert(jarr_view(out@) =~= jarr_view(items@.take(0)));
            }
            while i < items.len()
                invariant
                    i <= items@.len(),
                    out@.len() == i,
                    jarr_view(out@) == jarr_view(items@.take(i as int)),
                decreases items@.len() - i,
            {
                proof {
                    assert(v->Arr_0 == *items);
                    assert(i < v->Arr_0@.len());
                    assert(decreases_to!(*v => v->Arr_0));
                    assert(decreases_to!(v->Arr_0 => v->Arr_0@));
                    assert(decreases_to!(v->Arr_0@ => v->Arr_0@[i as int]));
                    assert(v->Arr_0@[i as int] == items@[i as int]);
                }
                let c = deep_clone(&items[i]);
                proof {
                    lemma_jarr_view_push(out@, c);
                    lemma_jarr_view_push(items@.take(i as int), items@[i as int]);
                    assert(items@.take(i as int).push(items@[i as int]) =~= items@.take(i + 1));
                }
                out.push(c);
                i = i + 1;
            }
            proof {
                assert(items@.take(items@.len() as int) =~= items@);
            }
            JsonValue::Arr(out)
        },
        JsonValue::Obj(members) => {
            let mut out: Vec<(Vec<u8>, JsonValue)> = Vec::new();
            let mut i: usize = 0;
            proof {
                lemma_jobj_view_index(members@);
                assert(jobj_view(out@) =~= jobj_view(members@.take(0)));
            }
            while i < members.len()
                invariant
                    i <= members@.len(),
                    out@.len() == i,
                    jobj_view(out@) == jobj_view(members@.take(i as int)),
                decreases members@.len() - i,
            {
                let k = members[i].0.clone();
                proof {
                    assert(v->Obj_0 == *members);
                    assert(i < v->Obj_0@.len());
                    assert(decreases_to!(*v => v->Obj_0));
                    assert(decreases_to!(v->Obj_0 => v->Obj_0@));
                    assert(decreases_to!(v->Obj_0@ => v->Obj_0@[i as int]));
                    assert(decreases_to!(v->Obj_0@[i as int] => v->Obj_0@[i as int].1));
                    assert(v->Obj_0@[i as int].1 == members@[i as int].1);
                }
                let c = deep_clone(&members[i].1);
                proof {
                    lemma_jobj_view_push(out@, k, c);
                    let m = members@[i as int];
                    lemma_jobj_view_push(members@.take(i as int), m.0, m.1);
                    assert(members@.take(i as int).push(m) =~= members@.take(i + 1));
                }
                out.push((k, c));
                i = i + 1;
            }
            proof {
                assert(members@.take(members@.len() as int) =~= members@);
            }
            JsonValue::Obj(out)
        },
    }
}

/// The first binding of a key among an object's members.
pub open spec fn obj_lookup(m: Seq<(Seq<u8>, JSpec)>, k: Seq<u8>) -> Option<JSpec>
    decreases m.len(),
{
    if m.len() == 0 {
        None
    } else if m[0].0 == k {
        Some(m[0].1)
    } else {
        obj_lookup(m.drop_first(), k)
    }
}

/// The value of a field of an object; `None` on anything else.
pub open spec fn jget(v: JSpec, k: Seq<u8>) -> Option<JSpec> {
    match v {
        JSpec::Obj(m) => obj_lookup(m, k),
        _ => None,
    }
}

/// Look a field up in an object value.
#[verifier::loop_isolation(false)]
pub fn get_field<'a>(v: &'a JsonValue, key: &Vec<u8>) -> (r: Option<&'a JsonValue>)
    ensures
        match r {
            Some(f) => jget(v@, key@) == Some(f@),
            None => jget(v@, key@) is None,
        },
{
    match v {
        JsonValue::Obj(members) => {
            proof {
                assert(v->Obj_0 == *members);
                assert(v@ == JSpec::Obj(jobj_view(members@)));
            }
            let mut i: usize = 0;
            proof {
                lemma_jobj_view_index(members@);
                assert(jobj_view(members@).skip(0) =~= jobj_view(members@));
            }
            while i < members.len()
                invariant
                    i <= members@.len(),
                    jobj_view(members@).len() == members@.len(),
                    forall|j: int|
                        0 <= j < members@.len() ==> #[trigger] jobj_view(members@)[j] == (
                        members@[j].0@,
                        jv_view(members@[j].1),
                        ),
                    obj_lookup(jobj_view(members@), key@) == obj_lookup(
                        jobj_view(members@).skip(i as int),
                        key@,
                    ),
                decreases members@.len() - i,
            {
                let ghost suf = jobj_view(members@).skip(i as int);
                proof {
                    assert(suf[0] == jobj_view(members@)[i as int]);
                    assert(suf.drop_first() =~= jobj_view(members@).skip(i + 1));
                }
                if crate::params::bytes_eq(&members[i].0, key) {
                    proof {
                        assert(suf[0].0 == key@);
                        assert(obj_lookup(suf, key@) == Some(suf[0].1));
                    }
                    return Some(&members[i].1);
                }
                i = i + 1;
            }
            proof {
                assert(jobj_view(members@).skip(members@.len() as int) =~= Seq::<(
                    Seq<u8>,
                    JSpec,
                )>::empty());
            }
            None
        },
        _ => None,
    }
}

// ------------------------------------------------------------------
// Parsing
// ------------------------------------------------------------------

/// JSON whitespace.
pub open spec fn is_ws(b: u8) -> bool {
    b == 0x20 || b == 0x09 || b == 0x0a || b == 0x0d
}

/// The index of the first non-whitespace byte at or after `i`.
pub open spec fn sp_ws(s: Seq<u8>, i: int) -> int
    decreases s.len() - i,
{
    if 0 <= i < s.len() && is_ws(s[i]) {
        sp_ws(s, i + 1)
    } else {
        i
    }
}

pub proof fn lemma_ws_bounds(s: Seq<u8>, i: int)
    requires
        0 <= i <= s.len(),
    ensures
        i <= sp_ws(s, i) <= s.len(),
    decreases s.len() - i,
{
    if i < s.len() && is_ws(s[i]) {
        lemma_ws_bounds(s, i + 1);
    }
}

/// An ASCII decimal digit.
pub open spec fn is_digit(b: u8) -> bool {
    0x30 <= b <= 0x39
}

/// The index of the first non-digit byte at or after `i`.
pub open spec fn sp_digits(s: Seq<u8>, i: int) -> int
    decreases s.len() - i,
{
    if 0 <= i < s.len() && is_digit(s[i]) {
        sp_digits(s, i + 1)
    } else {
        i
    }
}

pub proof fn lemma_digits_bounds(s: Seq<u8>, i: int)
    requires
        0 <= i <= s.len(),
    ensures
        i <= sp_digits(s, i) <= s.len(),
    decreases s.len() - i,
{
    if i < s.len() && is_digit(s[i]) {
        lemma_digits_bounds(s, i + 1);
    }
}

/// The number token starting at `i`: optional sign, integer part without a
/// leading zero, optional fraction, optional exponent. The token's bytes are
/// kept as the value.
pub open spec fn sp_number(s: Seq<u8>, i: int) -> Option<(Seq<u8>, int)> {
    let j = if 0 <= i < s.len() && s[i] == 0x2d {
        i + 1
    } else {
        i
    };
    if 0 <= j < s.len() && is_digit(s[j]) {
        let j2 = if s[j] == 0x30 {
            j + 1
        } else {
            sp_digits(s, j)
        };
        let j3 = if j2 < s.len() && s[j2] == 0x2e {
            if j2 + 1 < s.len() && is_digit(s[j2 + 1]) {
                sp_digits(s, j2 + 1)
            } else {
                -1
            }
        } else {
            j2
        };
        if j3 < 0 {
            None
        } else {
            let j4 = if j3 < s.len() && (s[j3] == 0x65 || s[j3] == 0x45) {
                let je = if j3 + 1 < s.len() && (s[j3 + 1] == 0x2b || s[j3 + 1] == 0x2d) {
                    j3 + 2
                } else {
                    j3 + 1
                };
                if je < s.len() && is_digit(s[je]) {
                    sp_digits(s, je)
                } else {
                    -1
                }
            } else {
                j3
            };
            if j4 < 0 {
                None
            } else {
                Some((s.subrange(i, j4), j4))
            }
        }
    } else {
        None
    }
}

pub proof fn lemma_number_progress(s: Seq<u8>, i: int)
    requires
        0 <= i <= s.len(),
    ensures
        match sp_number(s, i) {
            Some((lx, k)) => i < k <= s.len() && lx == s.subrange(i, k),
            None => true,
        },
{
    if sp_number(s, i) is Some {
        let j = if 0 <= i < s.len() && s[i] == 0x2d {
            i + 1
        } else {
            i
        };
        if 0 <= j < s.len() && is_digit(s[j]) {
            lemma_digits_bounds(s, j + 1);
            assert(sp_digits(s, j) == sp_digits(s, j + 1));
            let j2 = if s[j] == 0x30 {
                j + 1
            } else {
                sp_digits(s, j)
            };
            assert(sp_digits(s, j) > j);
            if j2 < s.len() && s[j2] == 0x2e {
                if j2 + 1 < s.len() && is_digit(s[j2 + 1]) {
                    lemma_digits_bounds(s, j2 + 1);
                }
            }
            let j3 = if j2 < s.len() && s[j2] == 0x2e {
                if j2 + 1 < s.len() && is_digit(s[j2 + 1]) {
                    sp_digits(s, j2 + 1)
                } else {
                    -1
                }
            } else {
                j2
            };
            if j3 >= 0 && j3 < s.len() && (s[j3] == 0x65 || s[j3] == 0x45) {
                let je = if j3 + 1 < s.len() && (s[j3 + 1] == 0x2b || s[j3 + 1] == 0x2d) {
                    j3 + 2
                } else {
                    j3 + 1
                };
                if je < s.len() && is_digit(s[je]) {
                    lemma_digits_bounds(s, je);
                }
            }
        }
    }
}

/// The value of four hexadecimal digit bytes at `i`.
pub open spec fn sp_hex4(s: Seq<u8>, i: int) -> Option<u32> {
    if 0 <= i && i + 4 <= s.len() {
        match (hex_val(s[i]), hex_val(s[i + 1]), hex_val(s[i + 2]), hex_val(s[i + 3])) {
            (Some(a), Some(b), Some(c), Some(d)) => Some(
                ((a as int) * 0x1000 + (b as int) * 0x100 + (c as int) * 0x10 + (d as int)) as u32,
            ),
            _ => None,
        }
    } else {
        None
    }
}

/// The UTF-8 encoding of a code point.
pub open spec fn utf8_enc(cp: u32) -> Seq<u8> {
    if cp < 0x80 {
        seq![cp as u8]
    } else if cp < 0x800 {
        seq![(0xc0 + cp / 0x40) as u8, (0x80 + cp % 0x40) as u8]
    } else if cp < 0x10000 {
        seq![
            (0xe0 + cp / 0x1000) as u8,
            (0x80 + (cp / 0x40) % 0x40) as u8,
            (0x80 + cp % 0x40) as u8,
        ]
    } else {
        seq![
            (0xf0 + cp / 0x40000) as u8,
            (0x80 + (cp / 0x1000) % 0x40) as u8,
            (0x80 + (cp / 0x40) % 0x40) as u8,
            (0x80 + cp % 0x40) as u8,
        ]
    }
}

/// Prefix the decoded bytes of the rest of a string.
pub open spec fn sp_prepend(pre: Seq<u8>, rest: Option<(Seq<u8>, int)>) -> Option<(Seq<u8>, int)> {
    match rest {
        Some((t, k)) => Some((pre + t, k)),
        None => None,
    }
}

/// The decoded body of a string, starting after the opening quote; the
/// returned index is just after the closing quote. Escapes cover the simple
/// set and `\uXXXX`, with surrogate pairs combined; an unpaired surrogate,
/// a raw control byte or an unterminated string fails.
pub open spec fn sp_chars(s: Seq<u8>, i: int) -> Option<(Seq<u8>, int)>
    decreases s.len() - i,
{
    if i < 0 || i >= s.len() {
        None
    } else if s[i] == 0x22 {
        Some((Seq::empty(), i + 1))
    } else if s[i] == 0x5c {
        if i + 1 < s.len() {
            let e = s[i + 1];
            if e == 0x22 || e == 0x5c || e == 0x2f {
                sp_prepend(seq![e], sp_chars(s, i + 2))
            } else if e == 0x62 {
                sp_prepend(seq![0x08u8], sp_chars(s, i + 2))
            } else if e == 0x66 {
                sp_prepend(seq![0x0cu8], sp_chars(s, i + 2))
            } else if e == 0x6e {
                sp_prepend(seq![0x0au8], sp_chars(s, i + 2))
            } else if e == 0x72 {
                sp_prepend(seq![0x0du8], sp_chars(s, i + 2))
            } else if e == 0x74 {
                sp_prepend(seq![0x09u8], sp_chars(s, i + 2))
            } else if e == 0x75 {
                match sp_hex4(s, i + 2) {
                    Some(cp) => if 0xd800 <= cp < 0xdc00 {
                        if i + 12 <= s.len() && s[i + 6] == 0x5c && s[i + 7] == 0x75 {
                            match sp_hex4(s, i + 8) {
                                Some(lo) => if 0xdc00 <= lo < 0xe000 {
                                    sp_prepend(
                                        utf8_enc(
                                            (0x10000 + (cp - 0xd800) * 0x400 + (lo
                                                - 0xdc00)) as u32,
                                        ),
                                        sp_chars(s, i + 12),
                                    )
                                } else {
                                    None
                                },
                                None => None,
                            }
                        } else {
                            None
                        }
                    } else if 0xdc00 <= cp < 0xe000 {
                        None
                    } else {
                        sp_prepend(utf8_enc(cp), sp_chars(s, i + 6))
                    },
                    None => None,
                }
            } else {
                None
            }
        } else {
            None
        }
    } else if s[i] < 0x20 {
        None
    } else {
        sp_prepend(seq![s[i]], sp_chars(s, i + 1))
    }
}

pub proof fn lemma_chars_progress(s: Seq<u8>, i: int)
    ensures
        match sp_chars(s, i) {
            Some((t, k)) => i < k <= s.len(),
            None => true,
        },
    decreases s.len() - i,
{
    if 0 <= i < s.len() {
        if s[i] == 0x22 {
        } else if s[i] == 0x5c {
            if i + 1 < s.len() {
                lemma_chars_progress(s, i + 2);
                if i + 6 <= s.len() {
                    lemma_chars_progress(s, i + 6);
                }
                if i + 12 <= s.len() {
                    lemma_chars_progress(s, i + 12);
                }
            }
        } else {
            lemma_chars_progress(s, i + 1);
        }
    }
}

/// A string token at `i`: an opening quote, then the body.
pub open spec fn sp_string(s: Seq<u8>, i: int) -> Option<(Seq<u8>, int)> {
    if 0 <= i < s.len() && s[i] == 0x22 {
        sp_chars(s, i + 1)
    } else {
        None
    }
}

/// The JSON value at `i` (no leading whitespace); the returned index is just
/// after the value.
pub open spec fn sp_value(s: Seq<u8>, i: int) -> Option<(JSpec, int)>
    decreases s.len() - i, 2int,
{
    if i < 0 || i >= s.len() {
        None
    } else {
        let b = s[i];
        if b == 0x6e {  // 'n'
            if i + 4 <= s.len() && s[i + 1] == 0x75 && s[i + 2] == 0x6c && s[i + 3] == 0x6c {
                Some((JSpec::Null, i + 4))
            } else {
                None
            }
        } else if b == 0x74 {  // 't'
            if i + 4 <= s.len() && s[i + 1] == 0x72 && s[i + 2] == 0x75 && s[i + 3] == 0x65 {
                Some((JSpec::Bool(true), i + 4))
            } else {
                None
            }
        } else if b == 0x66 {  // 'f'
            if i + 5 <= s.len() && s[i + 1] == 0x61 && s[i + 2] == 0x6c && s[i + 3] == 0x73 && s[i
                + 4] == 0x65 {
                Some((JSpec::Bool(false), i + 5))
            } else {
                None
            }
        } else if b == 0x22 {
            match sp_chars(s, i + 1) {
                Some((t, k)) => Some((JSpec::Str(t), k)),
                None => None,
            }
        } else if b == 0x2d || is_digit(b) {
            match sp_number(s, i) {
                Some((lx, k)) => Some((JSpec::Num(lx), k)),
                None => None,
            }
        } else if b == 0x5b {  // '['
            let j = sp_ws(s, i + 1);
            if j <= i || j > s.len() {
                None
            } else if j < s.len() && s[j] == 0x5d {
                Some((JSpec::Arr(Seq::empty()), j + 1))
            } else {
                match sp_items(s, j) {
                    Some((items, k)) => Some((JSpec::Arr(items), k)),
                    None => None,
                }
            }
        } else if b == 0x7b {  // '{'
            let j = sp_ws(s, i + 1);
            if j <= i || j > s.len() {
                None
            } else if j < s.len() && s[j] == 0x7d {
                Some((JSpec::Obj(Seq::empty()), j + 1))
            } else {
                match sp_members(s, j) {
                    Some((members, k)) => Some((JSpec::Obj(members), k)),
                    None => None,
                }
            }
        } else {
            None
        }
    }
}

/// One or more comma-separated array items starting at the first item, up to
/// and including the closing bracket.
pub open spec fn sp_items(s: Seq<u8>, i: int) -> Option<(Seq<JSpec>, int)>
    decreases s.len() - i, 3int,
{
    match sp_value(s, i) {
        Some((v, k)) => if k <= i || k > s.len() {
            None
        } else {
            let j = sp_ws(s, k);
            if j < k || j > s.len() {
                None
            } else if j < s.len() && s[j] == 0x2c {
                let j2 = sp_ws(s, j + 1);
                if j2 <= i || j2 > s.len() {
                    None
                } else {
                    match sp_items(s, j2) {
                        Some((rest, k2)) => Some((seq![v] + rest, k2)),
                        None => None,
                    }
                }
            } else if j < s.len() && s[j] == 0x5d {
                Some((seq![v], j + 1))
            } else {
                None
            }
        },
        None => None,
    }
}

/// One or more comma-separated object members starting at the first key, up
/// to and including the closing brace.
pub open spec fn sp_members(s: Seq<u8>, i: int) -> Option<(Seq<(Seq<u8>, JSpec)>, int)>
    decreases s.len() - i, 3int,
{
    match sp_string(s, i) {
        Some((key, k)) => if k <= i || k > s.len() {
            None
        } else {
            let j = sp_ws(s, k);
            if j < k || j > s.len() {
                None
            } else if j < s.len() && s[j] == 0x3a {
                let j2 = sp_ws(s, j + 1);
                if j2 <= i || j2 > s.len() {
                    None
                } else {
                    match sp_value(s, j2) {
                        Some((v, k2)) => if k2 <= j2 || k2 > s.len() {
                            None
                        } else {
                            let j3 = sp_ws(s, k2);
                            if j3 < k2 || j3 > s.len() {
                                None
                            } else if j3 < s.len() && s[j3] == 0x2c {
                                let j4 = sp_ws(s, j3 + 1);
                                if j4 <= i || j4 > s.len() {
                                    None
                                } else {
                                    match sp_members(s, j4) {
                                        Some((rest, k3)) => Some((seq![(key, v)] + rest, k3)),
                                        None => None,
                                    }
                                }
                            } else if j3 < s.len() && s[j3] == 0x7d {
                                Some((seq![(key, v)], j3 + 1))
                            } else {
                                None
                            }
                        },
                        None => None,
                    }
                }
            } else {
                None
            }
        },
        None => None,
    }
}

/// A whole JSON text: one value, optionally surrounded by whitespace.
pub open spec fn sp_text(s: Seq<u8>) -> Option<JSpec> {
    let i = sp_ws(s, 0);
    match sp_value(s, i) {
        Some((v, k)) => if 0 <= k <= s.len() && sp_ws(s, k) == s.len() {
            Some(v)
        } else {
            None
        },
        None => None,
    }
}

pub proof fn lemma_value_progress(s: Seq<u8>, i: int)
    ensures
        match sp_value(s, i) {
            Some((v, k)) => i < k <= s.len(),
            None => true,
        },
    decreases s.len() - i, 2int,
{
    if 0 <= i < s.len() {
        let b = s[i];
        if b == 0x22 {
            lemma_chars_progress(s, i + 1);
        } else if b == 0x2d || is_digit(b) {
            lemma_number_progress(s, i);
        } else if b == 0x5b {
            let j = sp_ws(s, i + 1);
            if i < j <= s.len() && !(j < s.len() && s[j] == 0x5d) {
                lemma_items_progress(s, j);
            }
        } else if b == 0x7b {
            let j = sp_ws(s, i + 1);
            if i < j <= s.len() && !(j < s.len() && s[j] == 0x7d) {
                lemma_members_progress(s, j);
            }
        }
    }
}

pub proof fn lemma_items_progress(s: Seq<u8>, i: int)
    ensures
        match sp_items(s, i) {
            Some((items, k)) => i < k <= s.len(),
            None => true,
        },
    decreases s.len() - i, 3int,
{
    lemma_value_progress(s, i);
    match sp_value(s, i) {
        Some((v, k)) => {
            if i < k <= s.len() {
                let j = sp_ws(s, k);
                if k <= j <= s.len() && j < s.len() && s[j] == 0x2c {
                    let j2 = sp_ws(s, j + 1);
                    if i < j2 <= s.len() {
                        lemma_items_progress(s, j2);
                    }
                }
            }
        },
        None => {},
    }
}

pub proof fn lemma_members_progress(s: Seq<u8>, i: int)
    ensures
        match sp_members(s, i) {
            Some((members, k)) => i < k <= s.len(),
            None => true,
        },
    decreases s.len() - i, 3int,
{
    if 0 <= i < s.len() && s[i] == 0x22 {
        lemma_chars_progress(s, i + 1);
    }
    match sp_string(s, i) {
        Some((key, k)) => {
            if i < k <= s.len() {
                let j = sp_ws(s, k);
                if k <= j <= s.len() && j < s.len() && s[j] == 0x3a {
                    let j2 = sp_ws(s, j + 1);
                    if i < j2 <= s.len() {
                        lemma_value_progress(s, j2);
                        match sp_value(s, j2) {
                            Some((v, k2)) => {
                                if j2 < k2 <= s.len() {
                                    let j3 = sp_ws(s, k2);
                                    if k2 <= j3 <= s.len() && j3 < s.len() && s[j3] == 0x2c {
                                        let j4 = sp_ws(s, j3 + 1);
                                        if i < j4 <= s.len() {
                                            lemma_members_progress(s, j4);
                                        }
                                    }
                                }
                            },
                            None => {},
                        }
                    }
                }
            }
        },
        None => {},
    }
}

/// Skip JSON whitespace.
fn skip_ws(s: &[u8], i: usize) -> (r: usize)
    requires
        i <= s@.len(),
    ensures
        r as int == sp_ws(s@, i as int),
        i <= r <= s@.len(),
{
    let mut cur: usize = i;
    while cur < s.len() && (s[cur] == 0x20 || s[cur] == 0x09 || s[cur] == 0x0a || s[cur] == 0x0d)
        invariant
            i <= cur <= s@.len(),
            sp_ws(s@, i as int) == sp_ws(s@, cur as int),
        decreases s@.len() - cur,
    {
        cur = cur + 1;
    }
    cur
}

/// Skip ASCII digits.
fn scan_digits(s: &[u8], i: usize) -> (r: usize)
    requires
        i <= s@.len(),
    ensures
        r as int == sp_digits(s@, i as int),
        i <= r <= s@.len(),
{
    let mut cur: usize = i;
    while cur < s.len() && 0x30 <= s[cur] && s[cur] <= 0x39
        invariant
            i <= cur <= s@.len(),
            sp_digits(s@, i as int) == sp_digits(s@, cur as int),
        decreases s@.len() - cur,
    {
        cur = cur + 1;
    }
    cur
}

/// Copy `s[a..b]` out.
fn copy_range(s: &[u8], a: usize, b: usize) -> (r: Vec<u8>)
    requires
        a <= b <= s@.len(),
    ensures
        r@ == s@.subrange(a as int, b as int),
{
    let mut r: Vec<u8> = Vec::new();
    let mut cur: usize = a;
    while cur < b
        invariant
            a <= cur <= b <= s@.len(),
            r@ == s@.subrange(a as int, cur as int),
        decreases b - cur,
    {
        r.push(s[cur]);
        proof {
            assert(s@.subrange(a as int, cur as int).push(s@[cur as int]) =~= s@.subrange(
                a as int,
                cur + 1,
            ));
        }
        cur = cur + 1;
    }
    r
}

/// Read four hexadecimal digits as a code unit.
fn parse_hex4(s: &[u8], i: usize) -> (r: Option<u32>)
    requires
        i <= s@.len(),
    ensures
        r == sp_hex4(s@, i as int),
        r is Some ==> i + 4 <= s@.len() && r->Some_0 <= 0xffff,
{
    if s.len() - i < 4 {
        return None;
    }
    let a = hex_val_of(s[i]);
    let b = hex_val_of(s[i + 1]);
    let c = hex_val_of(s[i + 2]);
    let d = hex_val_of(s[i + 3]);
    match (a, b, c, d) {
        (Some(a), Some(b), Some(c), Some(d)) => Some(
            (a as u32) * 0x1000 + (b as u32) * 0x100 + (c as u32) * 0x10 + (d as u32),
        ),
        _ => None,
    }
}

/// Append the UTF-8 encoding of a code point.
fn push_utf8(out: &mut Vec<u8>, cp: u32)
    requires
        cp < 0x110000,
    ensures
        final(out)@ == old(out)@ + utf8_enc(cp),
{
    if cp < 0x80 {
        out.push(cp as u8);
    } else if cp < 0x800 {
        assert(cp / 0x40 < 0x20) by (nonlinear_arith)
            requires cp < 0x800;
        out.push(0xc0 + (cp / 0x40) as u8);
        out.push(0x80 + (cp % 0x40) as u8);
    } else if cp < 0x10000 {
        assert(cp / 0x1000 < 0x10) by (nonlinear_arith)
            requires cp < 0x10000;
        assert((cp / 0x40) % 0x40 < 0x40);
        out.push(0xe0 + (cp / 0x1000) as u8);
        out.push(0x80 + ((cp / 0x40) % 0x40) as u8);
        out.push(0x80 + (cp % 0x40) as u8);
    } else {
        assert(cp / 0x40000 < 0x5) by (nonlinear_arith)
            requires cp < 0x110000;
        assert((cp / 0x1000) % 0x40 < 0x40);
        assert((cp / 0x40) % 0x40 < 0x40);
        out.push(0xf0 + (cp / 0x40000) as u8);
        out.push(0x80 + ((cp / 0x1000) % 0x40) as u8);
        out.push(0x80 + ((cp / 0x40) % 0x40) as u8);
        out.push(0x80 + (cp % 0x40) as u8);
    }
    proof {
        assert(out@ =~= old(out)@ + utf8_enc(cp));
    }
}

proof fn lemma_prepend_assoc(a: Seq<u8>, b: Seq<u8>, r: Option<(Seq<u8>, int)>)
    ensures
        sp_prepend(a, sp_prepend(b, r)) == sp_prepend(a + b, r),
{
    match r {
        Some(p) => {
            assert((a + b) + p.0 =~= a + (b + p.0));
        },
        None => {},
    }
}

/// Decode a string body, starting after the opening quote.
#[verifier::loop_isolation(false)]
fn parse_chars(s: &[u8], start: usize) -> (r: Option<(Vec<u8>, usize)>)
    requires
        start <= s@.len(),
    ensures
        match r {
            Some(p) => sp_chars(s@, start as int) == Some((p.0@, p.1 as int)) && start < p.1
                <= s@.len(),
            None => sp_chars(s@, start as int) is None,
        },
{
    proof {
        lemma_chars_progress(s@, start as int);
    }
    let mut acc: Vec<u8> = Vec::new();
    let mut cur: usize = start;
    proof {
        assert(sp_prepend(acc@, sp_chars(s@, cur as int)) == sp_chars(s@, start as int)) by {
            match sp_chars(s@, start as int) {
                Some(p) => {
                    assert(Seq::<u8>::empty() + p.0 =~= p.0);
                },
                None => {},
            }
        }
    }
    loop
        invariant
            start <= cur <= s@.len(),
            sp_chars(s@, start as int) == sp_prepend(acc@, sp_chars(s@, cur as int)),
        decreases s@.len() - cur,
    {
        if cur >= s.len() {
            return None;
        }
        let b = s[cur];
        if b == 0x22 {
            proof {
                assert(acc@ + Seq::<u8>::empty() =~= acc@);
            }
            proof {
                lemma_chars_progress(s@, start as int);
            }
            return Some((acc, cur + 1));
        }
        if b == 0x5c {
            if cur + 1 >= s.len() {
                return None;
            }
            let e = s[cur + 1];
            let ghost acc0 = acc@;
            if e == 0x22 || e == 0x5c || e == 0x2f || e == 0x62 || e == 0x66 || e == 0x6e || e
                == 0x72 || e == 0x74 {
                let decoded: u8 = if e == 0x62 {
                    0x08
                } else if e == 0x66 {
                    0x0c
                } else if e == 0x6e {
                    0x0a
                } else if e == 0x72 {
                    0x0d
                } else if e == 0x74 {
                    0x09
                } else {
                    e
                };
                acc.push(decoded);
                proof {
                    assert(sp_chars(s@, cur as int) == sp_prepend(
                        seq![decoded],
                        sp_chars(s@, cur + 2),
                    ));
                    lemma_prepend_assoc(acc0, seq![decoded], sp_chars(s@, cur + 2));
                    assert(acc0 + seq![decoded] =~= acc@);
                }
                cur = cur + 2;
            } else if e == 0x75 {
                match parse_hex4(s, cur + 2) {
                    None => {
                        return None;
                    },
                    Some(cp) => {
                        if 0xd800 <= cp && cp < 0xdc00 {
                            if s.len() - cur >= 12 && s[cur + 6] == 0x5c && s[cur + 7] == 0x75 {
                                match parse_hex4(s, cur + 8) {
                                    None => {
                                        return None;
                                    },
                                    Some(lo) => {
                                        if 0xdc00 <= lo && lo < 0xe000 {
                                            let combined: u32 = 0x10000 + (cp - 0xd800) * 0x400 + (
                                            lo - 0xdc00);
                                            push_utf8(&mut acc, combined);
                                            proof {
                                                assert(sp_chars(s@, cur as int) == sp_prepend(
                                                    utf8_enc(combined),
                                                    sp_chars(s@, cur + 12),
                                                ));
                                                lemma_prepend_assoc(
                                                    acc0,
                                                    utf8_enc(combined),
                                                    sp_chars(s@, cur + 12),
                                                );
                                            }
                                            cur = cur + 12;
                                        } else {
                                            return None;
                                        }
                                    },
                                }
                            } else {
                                return None;
                            }
                        } else if 0xdc00 <= cp && cp < 0xe000 {
                            return None;
                        } else {
                            push_utf8(&mut acc, cp);
                            proof {
                                assert(sp_chars(s@, cur as int) == sp_prepend(
                                    utf8_enc(cp),
                                    sp_chars(s@, cur + 6),
                                ));
                                lemma_prepend_assoc(acc0, utf8_enc(cp), sp_chars(s@, cur + 6));
                            }
                            cur = cur + 6;
                        }
                    },
                }
            } else {
                return None;
            }
        } else if b < 0x20 {
            return None;
        } else {
            let ghost acc0 = acc@;
            acc.push(b);
            proof {
                assert(sp_chars(s@, cur as int) == sp_prepend(seq![b], sp_chars(s@, cur + 1)));
                lemma_prepend_assoc(acc0, seq![b], sp_chars(s@, cur + 1));
                assert(acc0 + seq![b] =~= acc@);
            }
            cur = cur + 1;
        }
    }
}

/// Read a number token.
fn parse_number(s: &[u8], i: usize) -> (r: Option<(Vec<u8>, usize)>)
    requires
        i <= s@.len(),
    ensures
        match r {
            Some(p) => sp_number(s@, i as int) == Some((p.0@, p.1 as int)) && i < p.1 <= s@.len(),
            None => sp_number(s@, i as int) is None,
        },
{
    proof {
        lemma_number_progress(s@, i as int);
    }
    let mut j: usize = i;
    if j < s.len() && s[j] == 0x2d {
        j = j + 1;
    }
    if !(j < s.len() && 0x30 <= s[j] && s[j] <= 0x39) {
        return None;
    }
    let j2: usize = if s[j] == 0x30 {
        j + 1
    } else {
        scan_digits(s, j)
    };
    let j3: usize = if j2 < s.len() && s[j2] == 0x2e {
        if j2 + 1 < s.len() && 0x30 <= s[j2 + 1] && s[j2 + 1] <= 0x39 {
            scan_digits(s, j2 + 1)
        } else {
            return None;
        }
    } else {
        j2
    };
    let j4: usize = if j3 < s.len() && (s[j3] == 0x65 || s[j3] == 0x45) {
        let je: usize = if j3 + 1 < s.len() && (s[j3 + 1] == 0x2b || s[j3 + 1] == 0x2d) {
            j3 + 2
        } else {
            j3 + 1
        };
        if je < s.len() && 0x30 <= s[je] && s[je] <= 0x39 {
            scan_digits(s, je)
        } else {
            return None;
        }
    } else {
        j3
    };
    let lx = copy_range(s, i, j4);
    Some((lx, j4))
}

/// Parse the JSON value at `i` (no leading whitespace).
#[verifier::loop_isolation(false)]
pub fn parse_value(s: &[u8], i: usize) -> (r: Option<(JsonValue, usize)>)
    requires
        i <= s@.len(),
    ensures
        match r {
            Some(p) => sp_value(s@, i as int) == Some((p.0@, p.1 as int)) && i < p.1 <= s@.len(),
            None => sp_value(s@, i as int) is None,
        },
    decreases s@.len() - i,
{
    if i >= s.len() {
        return None;
    }
    let b = s[i];
    if b == 0x6e {
        if s.len() - i >= 4 && s[i + 1] == 0x75 && s[i + 2] == 0x6c && s[i + 3] == 0x6c {
            Some((JsonValue::Null, i + 4))
        } else {
            None
        }
    } else if b == 0x74 {
        if s.len() - i >= 4 && s[i + 1] == 0x72 && s[i + 2] == 0x75 && s[i + 3] == 0x65 {
            Some((JsonValue::Bool(true), i + 4))
        } else {
            None
        }
    } else if b == 0x66 {
        if s.len() - i >= 5 && s[i + 1] == 0x61 && s[i + 2] == 0x6c && s[i + 3] == 0x73 && s[i + 4]
            == 0x65 {
            Some((JsonValue::Bool(false), i + 5))
        } else {
            None
        }
    } else if b == 0x22 {
        match parse_chars(s, i + 1) {
            Some((t, k)) => Some((JsonValue::Str(t), k)),
            None => None,
        }
    } else if b == 0x2d || (0x30 <= b && b <= 0x39) {
        match parse_number(s, i) {
            Some((lx, k)) => Some((JsonValue::Num(lx), k)),
            None => None,
        }
    } else if b == 0x5b {
        let j = skip_ws(s, i + 1);
        if j < s.len() && s[j] == 0x5d {
            let empty_items: Vec<JsonValue> = Vec::new();
            proof {
                assert(jarr_view(empty_items@) =~= Seq::<JSpec>::empty());
            }
            return Some((JsonValue::Arr(empty_items), j + 1));
        }
        let mut acc: Vec<JsonValue> = Vec::new();
        let mut cur: usize = j;
        proof {
            assert(sp_items(s@, j as int) == (match sp_items(s@, cur as int) {
                Some((rest, k2)) => Some((jarr_view(acc@) + rest, k2)),
                None => None::<(Seq<JSpec>, int)>,
            })) by {
                assert(jarr_view(acc@) =~= Seq::<JSpec>::empty());
                match sp_items(s@, cur as int) {
                    Some(p) => {
                        assert(Seq::<JSpec>::empty() + p.0 =~= p.0);
                    },
                    None => {},
                }
            }
        }
        loop
            invariant
                i < cur <= s@.len(),
                sp_items(s@, j as int) == (match sp_items(s@, cur as int) {
                    Some((rest, k2)) => Some((jarr_view(acc@) + rest, k2)),
                    None => None::<(Seq<JSpec>, int)>,
                }),
            decreases s@.len() - cur,
        {
            match parse_value(s, cur) {
                None => {
                    return None;
                },
                Some((v, k)) => {
                    let j2 = skip_ws(s, k);
                    let ghost acc0 = acc@;
                    if j2 < s.len() && s[j2] == 0x2c {
                        let j3 = skip_ws(s, j2 + 1);
                        proof {
                            assert(sp_items(s@, cur as int) == (match sp_items(s@, j3 as int) {
                                Some((rest, k2)) => Some((seq![jv_view(v)] + rest, k2)),
                                None => None::<(Seq<JSpec>, int)>,
                            }));
                            lemma_jarr_view_push(acc0, v);
                            match sp_items(s@, j3 as int) {
                                Some(p) => {
                                    assert((jarr_view(acc0) + seq![jv_view(v)]) + p.0 =~= jarr_view(
                                        acc0,
                                    ) + (seq![jv_view(v)] + p.0));
                                    assert(jarr_view(acc0.push(v)) =~= jarr_view(acc0) + seq![
                                        jv_view(v),
                                    ]);
                                },
                                None => {},
                            }
                        }
                        acc.push(v);
                        cur = j3;
                    } else if j2 < s.len() && s[j2] == 0x5d {
                        proof {
                            assert(sp_items(s@, cur as int) == Some((seq![jv_view(v)], j2 + 1)));
                            lemma_jarr_view_push(acc0, v);
                        }
                        acc.push(v);
                        proof {
                            assert(jarr_view(acc@) =~= jarr_view(acc0) + seq![jv_view(v)]);
                        }
                        return Some((JsonValue::Arr(acc), j2 + 1));
                    } else {
                        return None;
                    }
                },
            }
        }
    } else if b == 0x7b {
        let j = skip_ws(s, i + 1);
        if j < s.len() && s[j] == 0x7d {
            let empty_members: Vec<(Vec<u8>, JsonValue)> = Vec::new();
            proof {
                assert(jobj_view(empty_members@) =~= Seq::<(Seq<u8>, JSpec)>::empty());
            }
            return Some((JsonValue::Obj(empty_members), j + 1));
        }
        let mut acc: Vec<(Vec<u8>, JsonValue)> = Vec::new();
        let mut cur: usize = j;
        proof {
            assert(sp_members(s@, j as int) == (match sp_members(s@, cur as int) {
                Some((rest, k2)) => Some((jobj_view(acc@) + rest, k2)),
                None => None::<(Seq<(Seq<u8>, JSpec)>, int)>,
            })) by {
                assert(jobj_view(acc@) =~= Seq::<(Seq<u8>, JSpec)>::empty());
                match sp_members(s@, cur as int) {
                    Some(p) => {
                        assert(Seq::<(Seq<u8>, JSpec)>::empty() + p.0 =~= p.0);
                    },
                    None => {},
                }
            }
        }
        loop
            invariant
                i < cur <= s@.len(),
                sp_members(s@, j as int) == (match sp_members(s@, cur as int) {
                    Some((rest, k2)) => Some((jobj_view(acc@) + rest, k2)),
                    None => None::<(Seq<(Seq<u8>, JSpec)>, int)>,
                }),
            decreases s@.len() - cur,
        {
            if !(cur < s.len() && s[cur] == 0x22) {
                return None;
            }
            match parse_chars(s, cur + 1) {
                None => {
                    return None;
                },
                Some((key, k)) => {
                    let j2 = skip_ws(s, k);
                    if !(j2 < s.len() && s[j2] == 0x3a) {
                        return None;
                    }
                    let j3 = skip_ws(s, j2 + 1);
                    match parse_value(s, j3) {
                        None => {
                            return None;
                        },
                        Some((v, k2)) => {
                            let j4 = skip_ws(s, k2);
                            let ghost acc0 = acc@;
                            let ghost keyv = key@;
                            if j4 < s.len() && s[j4] == 0x2c {
                                let j5 = skip_ws(s, j4 + 1);
                                proof {
                                    assert(sp_members(s@, cur as int) == (match sp_members(
                                        s@,
                                        j5 as int,
                                    ) {
                                        Some((rest, k3)) => Some(
                                            (seq![(keyv, jv_view(v))] + rest, k3),
                                        ),
                                        None => None::<(Seq<(Seq<u8>, JSpec)>, int)>,
                                    }));
                                    lemma_jobj_view_push(acc0, key, v);
                                    match sp_members(s@, j5 as int) {
                                        Some(p) => {
                                            assert((jobj_view(acc0) + seq![(keyv, jv_view(v))])
                                                + p.0 =~= jobj_view(acc0) + (seq![
                                                (keyv, jv_view(v)),
                                            ] + p.0));
                                            assert(jobj_view(acc0.push((key, v))) =~= jobj_view(
                                                acc0,
                                            ) + seq![(keyv, jv_view(v))]);
                                        },
                                        None => {},
                                    }
                                }
                                acc.push((key, v));
                                cur = j5;
                            } else if j4 < s.len() && s[j4] == 0x7d {
                                proof {
                                    assert(sp_members(s@, cur as int) == Some(
                                        (seq![(keyv, jv_view(v))], j4 + 1),
                                    ));
                                    lemma_jobj_view_push(acc0, key, v);
                                }
                                acc.push((key, v));
                                proof {
                                    assert(jobj_view(acc@) =~= jobj_view(acc0) + seq![
                                        (keyv, jv_view(v)),
                                    ]);
                                }
                                return Some((JsonValue::Obj(acc), j4 + 1));
                            } else {
                                return None;
                            }
                        },
                    }
                },
            }
        }
    } else {
        None
    }
}

/// Parse one line as a complete JSON text.
pub fn parse_json(s: &[u8]) -> (r: Option<JsonValue>)
    ensures
        match r {
            Some(v) => sp_text(s@) == Some(v@),
            None => sp_text(s@) is None,
        },
{
    let i = skip_ws(s, 0);
    match parse_value(s, i) {
        Some((v, k)) => {
            let j = skip_ws(s, k);
            if j == s.len() {
                Some(v)
            } else {
                None
            }
        },
        None => None,
    }
}

/// Appending one element appends its view.
pub proof fn lemma_jarr_view_push_pub(s: Seq<JsonValue>, v: JsonValue)
    ensures
        jarr_view(s.push(v)) == jarr_view(s) + seq![jv_view(v)],
{
    lemma_jarr_view_push(s, v);
}

/// Append one member to an object under construction.
pub fn obj_push(members: &mut Vec<(Vec<u8>, JsonValue)>, k: &str, v: JsonValue)
    ensures
        jobj_view(final(members)@) == jobj_view(old(members)@).push((utf8_bytes(k@), jv_view(v))),
{
    let kb = k.as_bytes_vec();
    proof {
        lemma_jobj_view_push(members@, kb, v);
    }
    members.push((kb, v));
}

/// Append one item to an array under construction.
pub fn arr_push(items: &mut Vec<JsonValue>, v: JsonValue)
    ensures
        jarr_view(final(items)@) == jarr_view(old(items)@).push(jv_view(v)),
{
    proof {
        lemma_jarr_view_push(items@, v);
    }
    items.push(v);
}

/// A JSON string value.
pub fn jstr(s: &str) -> (r: JsonValue)
    ensures
        r@ == JSpec::Str(utf8_bytes(s@)),
{
    JsonValue::Str(s.as_bytes_vec())
}

} // verus!
