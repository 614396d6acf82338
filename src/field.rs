//! Field values and field tables: the recursive, tagged values that method
//! arguments and content properties carry.

use vstd::prelude::*;
use vstd::slice::slice_subrange;
use vstd::utf8::{decode_utf8, valid_utf8};
use crate::error::{syntax_error, ConException, TransError};
use vstd::utf8::encode_utf8;
use crate::wire::{
    be16, be32, be64, enc16, enc32, enc64, enc_longstr, enc_shortstr, lemma_be16, lemma_be32,
    lemma_be64, long, longlong, longstr, octet, short, shortstr, write_bytes, write_long,
    write_longlong, write_longstr, write_octet, write_short, write_shortstr,
};

verus! {

pub const TAG_BOOLEAN: u8 = 0x74;
pub const TAG_SHORT_SHORT_INT: u8 = 0x62;
pub const TAG_SHORT_SHORT_UINT: u8 = 0x42;
pub const TAG_SHORT_INT: u8 = 0x55;
pub const TAG_SHORT_UINT: u8 = 0x75;
pub const TAG_LONG_INT: u8 = 0x49;
pub const TAG_LONG_UINT: u8 = 0x69;
pub const TAG_LONG_LONG_INT: u8 = 0x4C;
pub const TAG_LONG_LONG_UINT: u8 = 0x6C;
pub const TAG_FLOAT: u8 = 0x66;
pub const TAG_DOUBLE: u8 = 0x64;
pub const TAG_DECIMAL: u8 = 0x44;
pub const TAG_SHORT_STRING: u8 = 0x73;
pub const TAG_LONG_STRING: u8 = 0x53;
pub const TAG_FIELD_ARRAY: u8 = 0x41;
pub const TAG_TIMESTAMP: u8 = 0x54;
pub const TAG_FIELD_TABLE: u8 = 0x46;
pub const TAG_VOID: u8 = 0x56;

/// A field table: named values, kept in wire order.
pub type Table = Vec<(String, FieldValue)>;

/// A tagged field value. Floating-point values are held as their IEEE-754 bit
/// patterns, so that they pass through the codec exactly.
#[derive(Debug, PartialEq)]
pub enum FieldValue {
    Boolean(bool),
    ShortShortInt(i8),
    ShortShortUInt(u8),
    ShortInt(i16),
    ShortUInt(u16),
    LongInt(i32),
    LongUInt(u32),
    LongLongInt(i64),
    LongLongUInt(u64),
    Float(u32),
    Double(u64),
    DecimalValue(u8, u32),
    ShortString(String),
    LongString(Vec<u8>),
    FieldArray(Vec<FieldValue>),
    Timestamp(u64),
    FieldTable(Table),
    Void,
}

/// The mathematical value of a `FieldValue`: strings as characters, byte
/// strings, arrays and tables as sequences.
pub enum FieldVal {
    Boolean(bool),
    ShortShortInt(i8),
    ShortShortUInt(u8),
    ShortInt(i16),
    ShortUInt(u16),
    LongInt(i32),
    LongUInt(u32),
    LongLongInt(i64),
    LongLongUInt(u64),
    Float(u32),
    Double(u64),
    DecimalValue(u8, u32),
    ShortString(Seq<char>),
    LongString(Seq<u8>),
    FieldArray(Seq<FieldVal>),
    Timestamp(u64),
    FieldTable(Seq<(Seq<char>, FieldVal)>),
    Void,
}

impl FieldValue {
    pub open spec fn model(&self) -> FieldVal
        decreases self,
    {
        match self {
            FieldValue::Boolean(b) => FieldVal::Boolean(*b),
            FieldValue::ShortShortInt(x) => FieldVal::ShortShortInt(*x),
            FieldValue::ShortShortUInt(x) => FieldVal::ShortShortUInt(*x),
            FieldValue::ShortInt(x) => FieldVal::ShortInt(*x),
            FieldValue::ShortUInt(x) => FieldVal::ShortUInt(*x),
            FieldValue::LongInt(x) => FieldVal::LongInt(*x),
            FieldValue::LongUInt(x) => FieldVal::LongUInt(*x),
            FieldValue::LongLongInt(x) => FieldVal::LongLongInt(*x),
            FieldValue::LongLongUInt(x) => FieldVal::LongLongUInt(*x),
            FieldValue::Float(x) => FieldVal::Float(*x),
            FieldValue::Double(x) => FieldVal::Double(*x),
            FieldValue::DecimalValue(s, x) => FieldVal::DecimalValue(*s, *x),
            FieldValue::ShortString(s) => FieldVal::ShortString(s@),
            FieldValue::LongString(b) => FieldVal::LongString(b@),
            FieldValue::FieldArray(a) => FieldVal::FieldArray(values_model(a@)),
            FieldValue::Timestamp(x) => FieldVal::Timestamp(*x),
            FieldValue::FieldTable(t) => FieldVal::FieldTable(table_model(t@)),
            FieldValue::Void => FieldVal::Void,
        }
    }
}

/// The models of a sequence of field values.
pub open spec fn values_model(s: Seq<FieldValue>) -> Seq<FieldVal>
    decreases s,
{
    if s.len() == 0 {
        Seq::empty()
    } else {
        seq![s[0].model()] + values_model(s.skip(1))
    }
}

/// The model of a field table.
pub open spec fn table_model(s: Seq<(String, FieldValue)>) -> Seq<(Seq<char>, FieldVal)>
    decreases s,
{
    if s.len() == 0 {
        Seq::empty()
    } else {
        seq![(s[0].0@, s[0].1.model())] + table_model(s.skip(1))
    }
}

/// Decodes a `shortstr` from the front of `s`, with what follows it.
pub open spec fn dec_shortstr(s: Seq<u8>) -> Option<(Seq<char>, Seq<u8>)> {
    if s.len() >= 1 && s.len() >= 1 + s[0] && valid_utf8(s.subrange(1, 1 + s[0])) {
        Some((decode_utf8(s.subrange(1, 1 + s[0])), s.skip(1 + s[0])))
    } else {
        None
    }
}

/// `v`, with what follows the `width` octets that it was read from.
pub open spec fn fixed(b: Seq<u8>, width: int, v: FieldVal) -> Option<(FieldVal, Seq<u8>)> {
    if b.len() >= width {
        Some((v, b.skip(width)))
    } else {
        None
    }
}

/// Decodes one field value (tag octet and body) from the front of `s`, with
/// what follows it; `None` where `s` does not start with one.
pub open spec fn dec_value(s: Seq<u8>) -> Option<(FieldVal, Seq<u8>)>
    decreases s.len(), 0int,
{
    if s.len() == 0 {
        None
    } else {
        let tag = s[0];
        let b = s.skip(1);
        if tag == TAG_BOOLEAN {
            if b.len() >= 1 && (b[0] == 0 || b[0] == 1) {
                Some((FieldVal::Boolean(b[0] == 1), b.skip(1)))
            } else {
                None
            }
        } else if tag == TAG_SHORT_SHORT_INT {
            fixed(b, 1, FieldVal::ShortShortInt(b[0] as i8))
        } else if tag == TAG_SHORT_SHORT_UINT {
            fixed(b, 1, FieldVal::ShortShortUInt(b[0]))
        } else if tag == TAG_SHORT_INT {
            fixed(b, 2, FieldVal::ShortInt(be16(b) as i16))
        } else if tag == TAG_SHORT_UINT {
            fixed(b, 2, FieldVal::ShortUInt(be16(b) as u16))
        } else if tag == TAG_LONG_INT {
            fixed(b, 4, FieldVal::LongInt(be32(b) as i32))
        } else if tag == TAG_LONG_UINT {
            fixed(b, 4, FieldVal::LongUInt(be32(b) as u32))
        } else if tag == TAG_LONG_LONG_INT {
            fixed(b, 8, FieldVal::LongLongInt(be64(b) as i64))
        } else if tag == TAG_LONG_LONG_UINT {
            fixed(b, 8, FieldVal::LongLongUInt(be64(b) as u64))
        } else if tag == TAG_FLOAT {
            fixed(b, 4, FieldVal::Float(be32(b) as u32))
        } else if tag == TAG_DOUBLE {
            fixed(b, 8, FieldVal::Double(be64(b) as u64))
        } else if tag == TAG_DECIMAL {
            fixed(b, 5, FieldVal::DecimalValue(b[0], be32(b.skip(1)) as u32))
        } else if tag == TAG_SHORT_STRING {
            match dec_shortstr(b) {
                Some((st, rest)) => Some((FieldVal::ShortString(st), rest)),
                None => None,
            }
        } else if tag == TAG_LONG_STRING {
            if b.len() >= 4 && b.len() >= 4 + be32(b) {
                Some((FieldVal::LongString(b.subrange(4, 4 + be32(b))), b.skip(4 + be32(b))))
            } else {
                None
            }
        } else if tag == TAG_FIELD_ARRAY {
            if b.len() >= 4 && b.len() >= 4 + be32(b) {
                match dec_values(b.subrange(4, 4 + be32(b))) {
                    Some(vs) => Some((FieldVal::FieldArray(vs), b.skip(4 + be32(b)))),
                    None => None,
                }
            } else {
                None
            }
        } else if tag == TAG_TIMESTAMP {
            fixed(b, 8, FieldVal::Timestamp(be64(b) as u64))
        } else if tag == TAG_FIELD_TABLE {
            if b.len() >= 4 && b.len() >= 4 + be32(b) {
                match dec_pairs(b.subrange(4, 4 + be32(b))) {
                    Some(t) => Some((FieldVal::FieldTable(t), b.skip(4 + be32(b)))),
                    None => None,
                }
            } else {
                None
            }
        } else if tag == TAG_VOID {
            Some((FieldVal::Void, b))
        } else {
            None
        }
    }
}

/// Decodes the whole of `s` as consecutive field values.
pub open spec fn dec_values(s: Seq<u8>) -> Option<Seq<FieldVal>>
    decreases s.len(), 1int,
{
    if s.len() == 0 {
        Some(Seq::empty())
    } else {
        match dec_value(s) {
            Some((v, rest)) => if rest.len() < s.len() {
                match dec_values(rest) {
                    Some(vs) => Some(seq![v] + vs),
                    None => None,
                }
            } else {
                None
            },
            None => None,
        }
    }
}

/// Decodes one table entry (a `shortstr` name, then a field value) from the
/// front of `s`, with what follows it.
pub open spec fn dec_pair(s: Seq<u8>) -> Option<((Seq<char>, FieldVal), Seq<u8>)>
    decreases s.len(), 0int,
{
    if s.len() >= 1 && s.len() >= 1 + s[0] && valid_utf8(s.subrange(1, 1 + s[0])) {
        match dec_value(s.skip(1 + s[0])) {
            Some((v, rest)) => Some(((decode_utf8(s.subrange(1, 1 + s[0])), v), rest)),
            None => None,
        }
    } else {
        None
    }
}

/// Decodes the whole of `s` as consecutive table entries.
pub open spec fn dec_pairs(s: Seq<u8>) -> Option<Seq<(Seq<char>, FieldVal)>>
    decreases s.len(), 1int,
{
    if s.len() == 0 {
        Some(Seq::empty())
    } else {
        match dec_pair(s) {
            Some((p, rest)) => if rest.len() < s.len() {
                match dec_pairs(rest) {
                    Some(ps) => Some(seq![p] + ps),
                    None => None,
                }
            } else {
                None
            },
            None => None,
        }
    }
}

/// Decodes a field table (a `long` octet count, then its entries) from the
/// front of `s`, with what follows it.
pub open spec fn dec_table(s: Seq<u8>) -> Option<(Seq<(Seq<char>, FieldVal)>, Seq<u8>)> {
    if s.len() >= 4 && s.len() >= 4 + be32(s) {
        match dec_pairs(s.subrange(4, 4 + be32(s))) {
            Some(t) => Some((t, s.skip(4 + be32(s)))),
            None => None,
        }
    } else {
        None
    }
}


/// The encoding of a field value: its tag octet, then its body.
pub open spec fn enc_value(v: FieldVal) -> Seq<u8>
    decreases v,
{
    match v {
        FieldVal::Boolean(b) => seq![TAG_BOOLEAN, if b { 1u8 } else { 0u8 }],
        FieldVal::ShortShortInt(x) => seq![TAG_SHORT_SHORT_INT, x as u8],
        FieldVal::ShortShortUInt(x) => seq![TAG_SHORT_SHORT_UINT, x],
        FieldVal::ShortInt(x) => seq![TAG_SHORT_INT] + enc16((x as u16) as int),
        FieldVal::ShortUInt(x) => seq![TAG_SHORT_UINT] + enc16(x as int),
        FieldVal::LongInt(x) => seq![TAG_LONG_INT] + enc32((x as u32) as int),
        FieldVal::LongUInt(x) => seq![TAG_LONG_UINT] + enc32(x as int),
        FieldVal::LongLongInt(x) => seq![TAG_LONG_LONG_INT] + enc64((x as u64) as int),
        FieldVal::LongLongUInt(x) => seq![TAG_LONG_LONG_UINT] + enc64(x as int),
        FieldVal::Float(x) => seq![TAG_FLOAT] + enc32(x as int),
        FieldVal::Double(x) => seq![TAG_DOUBLE] + enc64(x as int),
        FieldVal::DecimalValue(sc, x) => seq![TAG_DECIMAL, sc] + enc32(x as int),
        FieldVal::ShortString(st) => seq![TAG_SHORT_STRING] + enc_shortstr(st),
        FieldVal::LongString(b) => seq![TAG_LONG_STRING] + enc_longstr(b),
        FieldVal::FieldArray(a) => seq![TAG_FIELD_ARRAY] + enc32(enc_values(a).len() as int)
            + enc_values(a),
        FieldVal::Timestamp(x) => seq![TAG_TIMESTAMP] + enc64(x as int),
        FieldVal::FieldTable(t) => seq![TAG_FIELD_TABLE] + enc32(enc_pairs(t).len() as int)
            + enc_pairs(t),
        FieldVal::Void => seq![TAG_VOID],
    }
}

/// The encodings of field values, one after the other.
pub open spec fn enc_values(a: Seq<FieldVal>) -> Seq<u8>
    decreases a,
{
    if a.len() == 0 {
        Seq::empty()
    } else {
        enc_value(a[0]) + enc_values(a.skip(1))
    }
}

/// The encodings of table entries, one after the other.
pub open spec fn enc_pairs(t: Seq<(Seq<char>, FieldVal)>) -> Seq<u8>
    decreases t,
{
    if t.len() == 0 {
        Seq::empty()
    } else {
        enc_shortstr(t[0].0) + enc_value(t[0].1) + enc_pairs(t.skip(1))
    }
}

/// The encoding of a field table: the octet count of its entries, then the entries.
pub open spec fn enc_table(t: Seq<(Seq<char>, FieldVal)>) -> Seq<u8> {
    enc32(enc_pairs(t).len() as int) + enc_pairs(t)
}

/// A field value can be encoded: every short string fits in 255 octets, and
/// every long string, array and table in a `long` length.
pub open spec fn wf_value(v: FieldVal) -> bool
    decreases v,
{
    match v {
        FieldVal::ShortString(st) => encode_utf8(st).len() <= 255,
        FieldVal::LongString(b) => b.len() <= u32::MAX,
        FieldVal::FieldArray(a) => wf_values(a) && enc_values(a).len() <= u32::MAX,
        FieldVal::FieldTable(t) => wf_pairs(t) && enc_pairs(t).len() <= u32::MAX,
        _ => true,
    }
}

pub open spec fn wf_values(a: Seq<FieldVal>) -> bool
    decreases a,
{
    a.len() == 0 || (wf_value(a[0]) && wf_values(a.skip(1)))
}

pub open spec fn wf_pairs(t: Seq<(Seq<char>, FieldVal)>) -> bool
    decreases t,
{
    t.len() == 0 || (encode_utf8(t[0].0).len() <= 255 && wf_value(t[0].1) && wf_pairs(
        t.skip(1),
    ))
}

/// A field table can be encoded.
pub open spec fn wf_table(t: Seq<(Seq<char>, FieldVal)>) -> bool {
    wf_pairs(t) && enc_pairs(t).len() <= u32::MAX
}

proof fn lemma_enc_value_nonempty(v: FieldVal)
    ensures
        enc_value(v).len() >= 1,
        enc_value(v)[0] == tag_of(v),
{
}

/// The tag octet of a field value.
pub open spec fn tag_of(v: FieldVal) -> u8 {
    match v {
        FieldVal::Boolean(_) => TAG_BOOLEAN,
        FieldVal::ShortShortInt(_) => TAG_SHORT_SHORT_INT,
        FieldVal::ShortShortUInt(_) => TAG_SHORT_SHORT_UINT,
        FieldVal::ShortInt(_) => TAG_SHORT_INT,
        FieldVal::ShortUInt(_) => TAG_SHORT_UINT,
        FieldVal::LongInt(_) => TAG_LONG_INT,
        FieldVal::LongUInt(_) => TAG_LONG_UINT,
        FieldVal::LongLongInt(_) => TAG_LONG_LONG_INT,
        FieldVal::LongLongUInt(_) => TAG_LONG_LONG_UINT,
        FieldVal::Float(_) => TAG_FLOAT,
        FieldVal::Double(_) => TAG_DOUBLE,
        FieldVal::DecimalValue(_, _) => TAG_DECIMAL,
        FieldVal::ShortString(_) => TAG_SHORT_STRING,
        FieldVal::LongString(_) => TAG_LONG_STRING,
        FieldVal::FieldArray(_) => TAG_FIELD_ARRAY,
        FieldVal::Timestamp(_) => TAG_TIMESTAMP,
        FieldVal::FieldTable(_) => TAG_FIELD_TABLE,
        FieldVal::Void => TAG_VOID,
    }
}

pub(crate) proof fn lemma_shortstr_round_trip(st: Seq<char>, rest: Seq<u8>)
    requires
        encode_utf8(st).len() <= 255,
    ensures
        dec_shortstr(enc_shortstr(st) + rest) == Some((st, rest)),
{
    let s = enc_shortstr(st) + rest;
    let n = encode_utf8(st).len();
    vstd::utf8::encode_utf8_valid_utf8(st);
    vstd::utf8::encode_utf8_decode_utf8(st);
    assert(s[0] == n as u8);
    assert(s.subrange(1, 1 + n as int) =~= encode_utf8(st));
    assert(s.skip(1 + n as int) =~= rest);
}

proof fn lemma_scalar_round_trip(v: FieldVal, rest: Seq<u8>)
    requires
        wf_value(v),
        !(v is FieldArray),
        !(v is FieldTable),
        !(v is ShortString),
        !(v is LongString),
    ensures
        dec_value(enc_value(v) + rest) == Some((v, rest)),
{
    let s = enc_value(v) + rest;
    lemma_enc_value_nonempty(v);
    let b = s.skip(1);
    match v {
        FieldVal::Boolean(x) => {
            assert(b =~= seq![if x { 1u8 } else { 0u8 }] + rest);
            assert(b.skip(1) =~= rest);
        },
        FieldVal::ShortShortInt(x) => {
            assert(b =~= seq![x as u8] + rest);
            assert(b.skip(1) =~= rest);
            assert(((x as u8) as i8) == x) by (bit_vector);
        },
        FieldVal::ShortShortUInt(x) => {
            assert(b =~= seq![x] + rest);
            assert(b.skip(1) =~= rest);
        },
        FieldVal::DecimalValue(sc, x) => {
            assert(b =~= seq![sc] + (enc32(x as int) + rest));
            assert(b.skip(1) =~= enc32(x as int) + rest);
            lemma_be32(x as int, rest);
            assert(b.skip(5) =~= rest);
        },
        FieldVal::Void => {
            assert(b =~= rest);
        },
        _ => {
            lemma_int_round_trip(v, rest);
        },
    }
}

proof fn lemma_int_round_trip(v: FieldVal, rest: Seq<u8>)
    requires
        v is ShortInt || v is ShortUInt || v is LongInt || v is LongUInt || v is LongLongInt
            || v is LongLongUInt || v is Float || v is Double || v is Timestamp,
    ensures
        dec_value(enc_value(v) + rest) == Some((v, rest)),
{
    let s = enc_value(v) + rest;
    lemma_enc_value_nonempty(v);
    let b = s.skip(1);
    match v {
        FieldVal::ShortInt(x) => {
            let y = x as u16;
            assert(b =~= enc16(y as int) + rest);
            lemma_be16(y as int, rest);
            assert((y as i16) == x) by (bit_vector)
                requires
                    y == x as u16,
            ;
        },
        FieldVal::ShortUInt(x) => {
            assert(b =~= enc16(x as int) + rest);
            lemma_be16(x as int, rest);
        },
        FieldVal::LongInt(x) => {
            let y = x as u32;
            assert(b =~= enc32(y as int) + rest);
            lemma_be32(y as int, rest);
            assert((y as i32) == x) by (bit_vector)
                requires
                    y == x as u32,
            ;
        },
        FieldVal::LongUInt(x) => {
            assert(b =~= enc32(x as int) + rest);
            lemma_be32(x as int, rest);
        },
        FieldVal::Float(x) => {
            assert(b =~= enc32(x as int) + rest);
            lemma_be32(x as int, rest);
        },
        FieldVal::LongLongInt(x) => {
            let y = x as u64;
            assert(b =~= enc64(y as int) + rest);
            lemma_be64(y as int, rest);
            assert((y as i64) == x) by (bit_vector)
                requires
                    y == x as u64,
            ;
        },
        FieldVal::LongLongUInt(x) => {
            assert(b =~= enc64(x as int) + rest);
            lemma_be64(x as int, rest);
        },
        FieldVal::Double(x) => {
            assert(b =~= enc64(x as int) + rest);
            lemma_be64(x as int, rest);
        },
        FieldVal::Timestamp(x) => {
            assert(b =~= enc64(x as int) + rest);
            lemma_be64(x as int, rest);
        },
        _ => {},
    }
}

/// Decoding the encoding of a well-formed field value gives the value back,
/// and leaves whatever followed the encoding untouched.
pub proof fn lemma_field_value_round_trip(v: FieldVal, rest: Seq<u8>)
    requires
        wf_value(v),
    ensures
        dec_value(enc_value(v) + rest) == Some((v, rest)),
    decreases v,
{
    let s = enc_value(v) + rest;
    lemma_enc_value_nonempty(v);
    let b = s.skip(1);
    match v {
        FieldVal::ShortString(st) => {
            assert(b =~= enc_shortstr(st) + rest);
            lemma_shortstr_round_trip(st, rest);
        },
        FieldVal::LongString(bs) => {
            let n = bs.len() as int;
            assert(b =~= enc32(n) + (bs + rest));
            lemma_be32(n, bs + rest);
            assert(b.subrange(4, 4 + n) =~= bs);
            assert(b.skip(4 + n) =~= rest);
        },
        FieldVal::FieldArray(a) => {
            let body = enc_values(a);
            let n = body.len() as int;
            assert(b =~= enc32(n) + (body + rest));
            lemma_be32(n, body + rest);
            assert(b.subrange(4, 4 + n) =~= body);
            assert(b.skip(4 + n) =~= rest);
            lemma_field_values_round_trip(a);
        },
        FieldVal::FieldTable(t) => {
            let body = enc_pairs(t);
            let n = body.len() as int;
            assert(b =~= enc32(n) + (body + rest));
            lemma_be32(n, body + rest);
            assert(b.subrange(4, 4 + n) =~= body);
            assert(b.skip(4 + n) =~= rest);
            lemma_table_entries_round_trip(t);
        },
        _ => {
            lemma_scalar_round_trip(v, rest);
        },
    }
}

proof fn lemma_field_values_round_trip(a: Seq<FieldVal>)
    requires
        wf_values(a),
    ensures
        dec_values(enc_values(a)) == Some(a),
    decreases a,
{
    if a.len() == 0 {
        assert(a =~= Seq::<FieldVal>::empty());
    } else {
        let tail = enc_values(a.skip(1));
        lemma_enc_value_nonempty(a[0]);
        lemma_field_value_round_trip(a[0], tail);
        lemma_field_values_round_trip(a.skip(1));
        assert(seq![a[0]] + a.skip(1) =~= a);
    }
}

proof fn lemma_table_entries_round_trip(t: Seq<(Seq<char>, FieldVal)>)
    requires
        wf_pairs(t),
    ensures
        dec_pairs(enc_pairs(t)) == Some(t),
    decreases t,
{
    if t.len() == 0 {
        assert(t =~= Seq::<(Seq<char>, FieldVal)>::empty());
    } else {
        let name = t[0].0;
        let v = t[0].1;
        let tail = enc_pairs(t.skip(1));
        let s = enc_pairs(t);
        let n = encode_utf8(name).len() as int;
        vstd::utf8::encode_utf8_valid_utf8(name);
        vstd::utf8::encode_utf8_decode_utf8(name);
        assert(s[0] == n as u8);
        assert(s.subrange(1, 1 + n) =~= encode_utf8(name));
        assert(s.skip(1 + n) =~= enc_value(v) + tail);
        lemma_enc_value_nonempty(v);
        lemma_field_value_round_trip(v, tail);
        assert(dec_pair(s) == Some(((name, v), tail)));
        lemma_table_entries_round_trip(t.skip(1));
        assert(seq![(name, v)] + t.skip(1) =~= t);
    }
}

/// Decoding the encoding of a well-formed field table gives the table back.
pub proof fn lemma_table_round_trip(t: Seq<(Seq<char>, FieldVal)>, rest: Seq<u8>)
    requires
        wf_table(t),
    ensures
        dec_table(enc_table(t) + rest) == Some((t, rest)),
{
    let body = enc_pairs(t);
    let n = body.len() as int;
    let s = enc_table(t) + rest;
    assert(s =~= enc32(n) + (body + rest));
    lemma_be32(n, body + rest);
    assert(s.subrange(4, 4 + n) =~= body);
    assert(s.skip(4 + n) =~= rest);
    lemma_table_entries_round_trip(t);
}

proof fn lemma_values_model_push(s: Seq<FieldValue>, v: FieldValue)
    ensures
        values_model(s.push(v)) == values_model(s) + seq![v.model()],
    decreases s.len(),
{
    if s.len() == 0 {
        let e = Seq::<FieldValue>::empty();
        assert(s.push(v).skip(1) =~= e);
        assert(values_model(e) == Seq::<FieldVal>::empty());
        assert(values_model(s.push(v)) =~= values_model(s) + seq![v.model()]);
    } else {
        assert(s.push(v).skip(1) =~= s.skip(1).push(v));
        assert(s.push(v)[0] == s[0]);
        lemma_values_model_push(s.skip(1), v);
        assert(values_model(s.push(v)) =~= values_model(s) + seq![v.model()]);
    }
}

proof fn lemma_table_model_push(s: Seq<(String, FieldValue)>, p: (String, FieldValue))
    ensures
        table_model(s.push(p)) == table_model(s) + seq![(p.0@, p.1.model())],
    decreases s.len(),
{
    if s.len() == 0 {
        let e = Seq::<(String, FieldValue)>::empty();
        assert(s.push(p).skip(1) =~= e);
        assert(table_model(e) == Seq::<(Seq<char>, FieldVal)>::empty());
        assert(table_model(s.push(p)) =~= table_model(s) + seq![(p.0@, p.1.model())]);
    } else {
        assert(s.push(p).skip(1) =~= s.skip(1).push(p));
        assert(s.push(p)[0] == s[0]);
        lemma_table_model_push(s.skip(1), p);
        assert(table_model(s.push(p)) =~= table_model(s) + seq![(p.0@, p.1.model())]);
    }
}

fn syntax_err() -> (e: TransError)
    ensures
        e == syntax_error(),
{
    ConException::SyntaxError.into_trans()
}

/// Reads one field value: a tag octet and the body that the tag calls for.
pub fn field_value(input: &[u8]) -> (r: Result<(&[u8], FieldValue), TransError>)
    ensures
        match r {
            Ok((rest, v)) => dec_value(input@) == Some((v.model(), rest@)),
            Err(e) => dec_value(input@) is None && e == syntax_error(),
        },
    decreases input@.len(),
{
    let (b, tag) = octet(input)?;
    assert(b@ == input@.skip(1));
    if tag == TAG_BOOLEAN {
        let (rest, x) = octet(b)?;
        if x == 0 {
            Ok((rest, FieldValue::Boolean(false)))
        } else if x == 1 {
            Ok((rest, FieldValue::Boolean(true)))
        } else {
            Err(syntax_err())
        }
    } else if tag == TAG_SHORT_SHORT_INT {
        let (rest, x) = octet(b)?;
        Ok((rest, FieldValue::ShortShortInt(#[verifier::truncate] (x as i8))))
    } else if tag == TAG_SHORT_SHORT_UINT {
        let (rest, x) = octet(b)?;
        Ok((rest, FieldValue::ShortShortUInt(x)))
    } else if tag == TAG_SHORT_INT {
        let (rest, x) = short(b)?;
        Ok((rest, FieldValue::ShortInt(#[verifier::truncate] (x as i16))))
    } else if tag == TAG_SHORT_UINT {
        let (rest, x) = short(b)?;
        Ok((rest, FieldValue::ShortUInt(x)))
    } else if tag == TAG_LONG_INT {
        let (rest, x) = long(b)?;
        Ok((rest, FieldValue::LongInt(#[verifier::truncate] (x as i32))))
    } else if tag == TAG_LONG_UINT {
        let (rest, x) = long(b)?;
        Ok((rest, FieldValue::LongUInt(x)))
    } else if tag == TAG_LONG_LONG_INT {
        let (rest, x) = longlong(b)?;
        Ok((rest, FieldValue::LongLongInt(#[verifier::truncate] (x as i64))))
    } else if tag == TAG_LONG_LONG_UINT {
        let (rest, x) = longlong(b)?;
        Ok((rest, FieldValue::LongLongUInt(x)))
    } else if tag == TAG_FLOAT {
        let (rest, x) = long(b)?;
        Ok((rest, FieldValue::Float(x)))
    } else if tag == TAG_DOUBLE {
        let (rest, x) = longlong(b)?;
        Ok((rest, FieldValue::Double(x)))
    } else if tag == TAG_DECIMAL {
        if b.len() < 5 {
            return Err(syntax_err());
        }
        let (rest, scale) = octet(b)?;
        let (rest, x) = long(rest)?;
        assert(b@.skip(1).skip(4) =~= b@.skip(5));
        Ok((rest, FieldValue::DecimalValue(scale, x)))
    } else if tag == TAG_SHORT_STRING {
        let (rest, st) = shortstr(b)?;
        Ok((rest, FieldValue::ShortString(st)))
    } else if tag == TAG_LONG_STRING {
        let (rest, data) = longstr(b)?;
        Ok((rest, FieldValue::LongString(data)))
    } else if tag == TAG_FIELD_ARRAY {
        let (after_len, len) = long(b)?;
        if (after_len.len() as u64) < (len as u64) {
            return Err(syntax_err());
        }
        let n = len as usize;
        let body = slice_subrange(after_len, 0, n);
        let rest = slice_subrange(after_len, n, after_len.len());
        assert(body@ =~= b@.subrange(4, 4 + be32(b@)));
        assert(rest@ =~= b@.skip(4 + be32(b@)));
        let mut vs: Vec<FieldValue> = Vec::new();
        let mut cur = body;
        while cur.len() > 0
            invariant
                cur@.len() <= body@.len() < input@.len(),
                input@.len() >= 1 && input@[0] == TAG_FIELD_ARRAY,
                b@ == input@.skip(1),
                b@.len() >= 4 + be32(b@),
                body@ == b@.subrange(4, 4 + be32(b@)),
                dec_values(body@) == match dec_values(cur@) {
                    Some(t) => Some(values_model(vs@) + t),
                    None => None,
                },
            decreases cur@.len(),
        {
            let (next, v) = match field_value(cur) {
                Ok(x) => x,
                Err(e) => {
                    assert(dec_values(cur@) is None);
                    assert(dec_values(body@) is None);
                    assert(dec_value(input@) is None);
                    return Err(e);
                },
            };
            if next.len() >= cur.len() {
                return Err(syntax_err());
            }
            proof {
                lemma_values_model_push(vs@, v);
                match dec_values(next@) {
                    Some(t) => {
                        assert(values_model(vs@) + (seq![v.model()] + t) =~= values_model(vs@)
                            + seq![v.model()] + t);
                    },
                    None => {},
                }
            }
            vs.push(v);
            cur = next;
        }
        assert(values_model(vs@) + Seq::empty() =~= values_model(vs@));
        Ok((rest, FieldValue::FieldArray(vs)))
    } else if tag == TAG_TIMESTAMP {
        let (rest, x) = longlong(b)?;
        Ok((rest, FieldValue::Timestamp(x)))
    } else if tag == TAG_FIELD_TABLE {
        let (rest, t) = table(b)?;
        Ok((rest, FieldValue::FieldTable(t)))
    } else if tag == TAG_VOID {
        Ok((b, FieldValue::Void))
    } else {
        Err(syntax_err())
    }
}

/// Reads one table entry: a `shortstr` name, then a field value.
fn table_value_pair(input: &[u8]) -> (r: Result<(&[u8], (String, FieldValue)), TransError>)
    ensures
        match r {
            Ok((rest, p)) => dec_pair(input@) == Some(((p.0@, p.1.model()), rest@)),
            Err(e) => dec_pair(input@) is None && e == syntax_error(),
        },
    decreases input@.len(),
{
    let (rest, field_name) = shortstr(input)?;
    let (rest, value) = field_value(rest)?;
    Ok((rest, (field_name, value)))
}

/// Reads a field table: a `long` count of octets, then the entries that fill them.
pub fn table(input: &[u8]) -> (r: Result<(&[u8], Table), TransError>)
    ensures
        match r {
            Ok((rest, t)) => dec_table(input@) == Some((table_model(t@), rest@)),
            Err(e) => dec_table(input@) is None && e == syntax_error(),
        },
    decreases input@.len(),
{
    let (after_len, len) = long(input)?;
    if (after_len.len() as u64) < (len as u64) {
        return Err(syntax_err());
    }
    let n = len as usize;
    let body = slice_subrange(after_len, 0, n);
    let rest = slice_subrange(after_len, n, after_len.len());
    assert(body@ =~= input@.subrange(4, 4 + be32(input@)));
    assert(rest@ =~= input@.skip(4 + be32(input@)));
    let mut t: Table = Vec::new();
    let mut cur = body;
    while cur.len() > 0
        invariant
            cur@.len() <= body@.len() < input@.len(),
            input@.len() >= 4 + be32(input@),
            body@ == input@.subrange(4, 4 + be32(input@)),
            dec_pairs(body@) == match dec_pairs(cur@) {
                Some(ps) => Some(table_model(t@) + ps),
                None => None,
            },
        decreases cur@.len(),
    {
        let (next, p) = match table_value_pair(cur) {
            Ok(x) => x,
            Err(e) => {
                assert(dec_pairs(cur@) is None);
                assert(dec_pairs(body@) is None);
                assert(dec_table(input@) is None);
                return Err(e);
            },
        };
        if next.len() >= cur.len() {
            return Err(syntax_err());
        }
        proof {
            lemma_table_model_push(t@, p);
            match dec_pairs(next@) {
                Some(ps) => {
                    assert(table_model(t@) + (seq![(p.0@, p.1.model())] + ps) =~= table_model(t@)
                        + seq![(p.0@, p.1.model())] + ps);
                },
                None => {},
            }
        }
        t.push(p);
        cur = next;
    }
    assert(table_model(t@) + Seq::empty() =~= table_model(t@));
    Ok((rest, t))
}


/// Writes a field value: its tag octet, then its body.
pub fn write_field_value(out: &mut Vec<u8>, v: &FieldValue)
    requires
        wf_value(v.model()),
    ensures
        final(out)@ == old(out)@ + enc_value(v.model()),
    decreases v,
{
    let ghost start = out@;
    match v {
        FieldValue::Boolean(b) => {
            write_octet(out, TAG_BOOLEAN);
            write_octet(out, if *b { 1u8 } else { 0u8 });
        },
        FieldValue::ShortShortInt(x) => {
            write_octet(out, TAG_SHORT_SHORT_INT);
            write_octet(out, #[verifier::truncate] (*x as u8));
        },
        FieldValue::ShortShortUInt(x) => {
            write_octet(out, TAG_SHORT_SHORT_UINT);
            write_octet(out, *x);
        },
        FieldValue::ShortInt(x) => {
            write_octet(out, TAG_SHORT_INT);
            write_short(out, #[verifier::truncate] (*x as u16));
        },
        FieldValue::ShortUInt(x) => {
            write_octet(out, TAG_SHORT_UINT);
            write_short(out, *x);
        },
        FieldValue::LongInt(x) => {
            write_octet(out, TAG_LONG_INT);
            write_long(out, #[verifier::truncate] (*x as u32));
        },
        FieldValue::LongUInt(x) => {
            write_octet(out, TAG_LONG_UINT);
            write_long(out, *x);
        },
        FieldValue::LongLongInt(x) => {
            write_octet(out, TAG_LONG_LONG_INT);
            write_longlong(out, #[verifier::truncate] (*x as u64));
        },
        FieldValue::LongLongUInt(x) => {
            write_octet(out, TAG_LONG_LONG_UINT);
            write_longlong(out, *x);
        },
        FieldValue::Float(x) => {
            write_octet(out, TAG_FLOAT);
            write_long(out, *x);
        },
        FieldValue::Double(x) => {
            write_octet(out, TAG_DOUBLE);
            write_longlong(out, *x);
        },
        FieldValue::DecimalValue(sc, x) => {
            write_octet(out, TAG_DECIMAL);
            write_octet(out, *sc);
            write_long(out, *x);
        },
        FieldValue::ShortString(st) => {
            write_octet(out, TAG_SHORT_STRING);
            write_shortstr(out, st.as_str());
        },
        FieldValue::LongString(b) => {
            write_octet(out, TAG_LONG_STRING);
            write_longstr(out, b.as_slice());
        },
        FieldValue::FieldArray(a) => {
            let mut body: Vec<u8> = Vec::new();
            let mut i: usize = 0;
            assert(a@.skip(0) =~= a@);
            while i < a.len()
                invariant
                    i <= a@.len(),
                    *v == FieldValue::FieldArray(*a),
                    wf_values(values_model(a@.skip(i as int))),
                    enc_values(values_model(a@)) == body@ + enc_values(
                        values_model(a@.skip(i as int)),
                    ),
                decreases a@.len() - i,
            {
                let ghost tail = a@.skip(i as int);
                assert(tail[0] == a@[i as int]);
                assert(tail.skip(1) =~= a@.skip(i + 1));
                let ghost m = values_model(tail);
                assert(m[0] == a@[i as int].model());
                assert(m.skip(1) =~= values_model(a@.skip(i + 1)));
                assert(decreases_to!(*v => v->FieldArray_0));
                assert(decreases_to!(*a => a@[i as int]));
                assert(decreases_to!(*v => a@[i as int]));
                write_field_value(&mut body, &a[i]);
                i = i + 1;
            }
            assert(a@.skip(a@.len() as int) =~= Seq::<FieldValue>::empty());
            assert(body@ + Seq::<u8>::empty() =~= body@);
            write_octet(out, TAG_FIELD_ARRAY);
            write_long(out, body.len() as u32);
            write_bytes(out, body.as_slice());
        },
        FieldValue::Timestamp(x) => {
            write_octet(out, TAG_TIMESTAMP);
            write_longlong(out, *x);
        },
        FieldValue::FieldTable(t) => {
            write_octet(out, TAG_FIELD_TABLE);
            write_table(out, t);
        },
        FieldValue::Void => {
            write_octet(out, TAG_VOID);
        },
    }
    assert(final(out)@ =~= start + enc_value(v.model()));
}

/// Writes a field table: the octet count of its entries, then the entries.
pub fn write_table(out: &mut Vec<u8>, t: &Table)
    requires
        wf_table(table_model(t@)),
    ensures
        final(out)@ == old(out)@ + enc_table(table_model(t@)),
    decreases t,
{
    let ghost start = out@;
    let mut body: Vec<u8> = Vec::new();
    let mut i: usize = 0;
    assert(t@.skip(0) =~= t@);
    while i < t.len()
        invariant
            i <= t@.len(),
            wf_pairs(table_model(t@.skip(i as int))),
            enc_pairs(table_model(t@)) == body@ + enc_pairs(table_model(t@.skip(i as int))),
        decreases t@.len() - i,
    {
        let ghost tail = t@.skip(i as int);
        assert(tail[0] == t@[i as int]);
        assert(tail.skip(1) =~= t@.skip(i + 1));
        let ghost m = table_model(tail);
        assert(m[0] == (t@[i as int].0@, t@[i as int].1.model()));
        assert(m.skip(1) =~= table_model(t@.skip(i + 1)));
        let ghost before = body@;
        write_shortstr(&mut body, t[i].0.as_str());
        assert(decreases_to!(*t => t@[i as int].1));
        write_field_value(&mut body, &t[i].1);
        i = i + 1;
        assert(body@ + enc_pairs(table_model(t@.skip(i as int))) =~= before + enc_pairs(m));
    }
    assert(t@.skip(t@.len() as int) =~= Seq::<(String, FieldValue)>::empty());
    assert(body@ + Seq::<u8>::empty() =~= body@);
    write_long(out, body.len() as u32);
    write_bytes(out, body.as_slice());
    assert(final(out)@ =~= start + enc_table(table_model(t@)));
}

/// The encoding of one field value.
pub fn serialize_field_value(v: &FieldValue) -> (r: Vec<u8>)
    requires
        wf_value(v.model()),
    ensures
        r@ == enc_value(v.model()),
{
    let mut out: Vec<u8> = Vec::new();
    write_field_value(&mut out, v);
    assert(out@ =~= enc_value(v.model()));
    out
}

/// Reads a field value that fills the whole of `input`.
pub fn parse_field_value(input: &[u8]) -> (r: Result<FieldValue, TransError>)
    ensures
        match r {
            Ok(v) => dec_value(input@) == Some((v.model(), Seq::<u8>::empty())),
            Err(e) => e == syntax_error() && !exists|w: FieldVal|
                dec_value(input@) == Some((w, Seq::<u8>::empty())),
        },
{
    let (rest, v) = field_value(input)?;
    if rest.len() != 0 {
        return Err(syntax_err());
    }
    assert(rest@ =~= Seq::<u8>::empty());
    Ok(v)
}

} // verus!
