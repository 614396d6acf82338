//! Methods: the argument lists of every (class, method) pair of the
//! protocol, read from and written to the payload of a method frame.

use vstd::prelude::*;
use crate::error::{syntax_error, ConException, ProtocolError, TransError};
use crate::field::{dec_shortstr, dec_table, enc_table, lemma_shortstr_round_trip, lemma_table_round_trip, table, table_model, wf_table, write_table, FieldVal, Table};
use crate::wire::{
    be16, be32, be64, bit, bit_octets, enc16, enc32, enc64, enc_longstr, enc_shortstr, lemma_be16,
    lemma_be32, lemma_be64, lemma_bits_round_trip, long, longlong, longstr, octet, pack_bits,
    short, shortstr, unpack_bits, write_bits, write_long, write_longlong, write_longstr,
    write_octet, write_short, write_shortstr,
};
use vstd::utf8::encode_utf8;

verus! {

/// The wire type of one method argument; `Bits(n)` is a run of `n`
/// consecutive `bit` arguments, packed together.
#[derive(Debug, Clone, Copy, PartialEq, Eq, Structural)]
pub enum ArgKind {
    Octet,
    Short,
    Long,
    LongLong,
    ShortStr,
    LongStr,
    Bits(u8),
    Table,
}

/// One method argument.
#[derive(Debug, PartialEq)]
pub enum Argument {
    Octet(u8),
    Short(u16),
    Long(u32),
    LongLong(u64),
    ShortStr(String),
    LongStr(Vec<u8>),
    Bits(Vec<bool>),
    Table(Table),
}

/// The value of a method argument.
pub enum ArgVal {
    Octet(u8),
    Short(u16),
    Long(u32),
    LongLong(u64),
    ShortStr(Seq<char>),
    LongStr(Seq<u8>),
    Bits(Seq<bool>),
    Table(Seq<(Seq<char>, FieldVal)>),
}

impl Argument {
    pub open spec fn model(&self) -> ArgVal {
        match self {
            Argument::Octet(x) => ArgVal::Octet(*x),
            Argument::Short(x) => ArgVal::Short(*x),
            Argument::Long(x) => ArgVal::Long(*x),
            Argument::LongLong(x) => ArgVal::LongLong(*x),
            Argument::ShortStr(s) => ArgVal::ShortStr(s@),
            Argument::LongStr(b) => ArgVal::LongStr(b@),
            Argument::Bits(b) => ArgVal::Bits(b@),
            Argument::Table(t) => ArgVal::Table(table_model(t@)),
        }
    }
}

/// A method: its class and method ids, and its arguments in declared order.
#[derive(Debug, PartialEq)]
pub struct Method {
    pub class_id: u16,
    pub method_id: u16,
    pub arguments: Vec<Argument>,
}

pub open spec fn args_model(v: Seq<Argument>) -> Seq<ArgVal> {
    Seq::new(v.len(), |i: int| v[i].model())
}

/// The argument kinds of each method of the protocol; `None` for an unknown pair.
pub open spec fn signature(class_id: u16, method_id: u16) -> Option<Seq<ArgKind>> {
    if class_id == 10 && method_id == 10 {
        Some(seq![ArgKind::Octet, ArgKind::Octet, ArgKind::Table, ArgKind::LongStr, ArgKind::LongStr])
    } else if class_id == 10 && method_id == 11 {
        Some(seq![ArgKind::Table, ArgKind::ShortStr, ArgKind::LongStr, ArgKind::ShortStr])
    } else if class_id == 10 && method_id == 20 {
        Some(seq![ArgKind::LongStr])
    } else if class_id == 10 && method_id == 21 {
        Some(seq![ArgKind::LongStr])
    } else if class_id == 10 && method_id == 30 {
        Some(seq![ArgKind::Short, ArgKind::Long, ArgKind::Short])
    } else if class_id == 10 && method_id == 31 {
        Some(seq![ArgKind::Short, ArgKind::Long, ArgKind::Short])
    } else if class_id == 10 && method_id == 40 {
        Some(seq![ArgKind::ShortStr, ArgKind::ShortStr, ArgKind::Bits(1)])
    } else if class_id == 10 && method_id == 41 {
        Some(seq![ArgKind::ShortStr])
    } else if class_id == 10 && method_id == 50 {
        Some(seq![ArgKind::Short, ArgKind::ShortStr, ArgKind::Short, ArgKind::Short])
    } else if class_id == 10 && method_id == 51 {
        Some(seq![])
    } else if class_id == 20 && method_id == 10 {
        Some(seq![ArgKind::ShortStr])
    } else if class_id == 20 && method_id == 11 {
        Some(seq![ArgKind::LongStr])
    } else if class_id == 20 && method_id == 20 {
        Some(seq![ArgKind::Bits(1)])
    } else if class_id == 20 && method_id == 21 {
        Some(seq![ArgKind::Bits(1)])
    } else if class_id == 20 && method_id == 40 {
        Some(seq![ArgKind::Short, ArgKind::ShortStr, ArgKind::Short, ArgKind::Short])
    } else if class_id == 20 && method_id == 41 {
        Some(seq![])
    } else if class_id == 40 && method_id == 10 {
        Some(seq![ArgKind::Short, ArgKind::ShortStr, ArgKind::ShortStr, ArgKind::Bits(5), ArgKind::Table])
    } else if class_id == 40 && method_id == 11 {
        Some(seq![])
    } else if class_id == 40 && method_id == 20 {
        Some(seq![ArgKind::Short, ArgKind::ShortStr, ArgKind::Bits(2)])
    } else if class_id == 40 && method_id == 21 {
        Some(seq![])
    } else if class_id == 50 && method_id == 10 {
        Some(seq![ArgKind::Short, ArgKind::ShortStr, ArgKind::Bits(5), ArgKind::Table])
    } else if class_id == 50 && method_id == 11 {
        Some(seq![ArgKind::ShortStr, ArgKind::Long, ArgKind::Long])
    } else if class_id == 50 && method_id == 20 {
        Some(seq![ArgKind::Short, ArgKind::ShortStr, ArgKind::ShortStr, ArgKind::ShortStr, ArgKind::Bits(1), ArgKind::Table])
    } else if class_id == 50 && method_id == 21 {
        Some(seq![])
    } else if class_id == 50 && method_id == 30 {
        Some(seq![ArgKind::Short, ArgKind::ShortStr, ArgKind::Bits(1)])
    } else if class_id == 50 && method_id == 31 {
        Some(seq![ArgKind::Long])
    } else if class_id == 50 && method_id == 40 {
        Some(seq![ArgKind::Short, ArgKind::ShortStr, ArgKind::Bits(3)])
    } else if class_id == 50 && method_id == 41 {
        Some(seq![ArgKind::Long])
    } else if class_id == 50 && method_id == 50 {
        Some(seq![ArgKind::Short, ArgKind::ShortStr, ArgKind::ShortStr, ArgKind::ShortStr, ArgKind::Table])
    } else if class_id == 50 && method_id == 51 {
        Some(seq![])
    } else if class_id == 60 && method_id == 10 {
        Some(seq![ArgKind::Long, ArgKind::Short, ArgKind::Bits(1)])
    } else if class_id == 60 && method_id == 11 {
        Some(seq![])
    } else if class_id == 60 && method_id == 20 {
        Some(seq![ArgKind::Short, ArgKind::ShortStr, ArgKind::ShortStr, ArgKind::Bits(4), ArgKind::Table])
    } else if class_id == 60 && method_id == 21 {
        Some(seq![ArgKind::ShortStr])
    } else if class_id == 60 && method_id == 30 {
        Some(seq![ArgKind::ShortStr, ArgKind::Bits(1)])
    } else if class_id == 60 && method_id == 31 {
        Some(seq![ArgKind::ShortStr])
    } else if class_id == 60 && method_id == 40 {
        Some(seq![ArgKind::Short, ArgKind::ShortStr, ArgKind::ShortStr, ArgKind::Bits(2)])
    } else if class_id == 60 && method_id == 50 {
        Some(seq![ArgKind::Short, ArgKind::ShortStr, ArgKind::ShortStr, ArgKind::ShortStr])
    } else if class_id == 60 && method_id == 60 {
        Some(seq![ArgKind::ShortStr, ArgKind::LongLong, ArgKind::Bits(1), ArgKind::ShortStr, ArgKind::ShortStr])
    } else if class_id == 60 && method_id == 70 {
        Some(seq![ArgKind::Short, ArgKind::ShortStr, ArgKind::Bits(1)])
    } else if class_id == 60 && method_id == 71 {
        Some(seq![ArgKind::LongLong, ArgKind::Bits(1), ArgKind::ShortStr, ArgKind::ShortStr, ArgKind::Long])
    } else if class_id == 60 && method_id == 72 {
        Some(seq![ArgKind::ShortStr])
    } else if class_id == 60 && method_id == 80 {
        Some(seq![ArgKind::LongLong, ArgKind::Bits(1)])
    } else if class_id == 60 && method_id == 90 {
        Some(seq![ArgKind::LongLong, ArgKind::Bits(1)])
    } else if class_id == 60 && method_id == 100 {
        Some(seq![ArgKind::Bits(1)])
    } else if class_id == 60 && method_id == 110 {
        Some(seq![ArgKind::Bits(1)])
    } else if class_id == 60 && method_id == 111 {
        Some(seq![])
    } else if class_id == 60 && method_id == 120 {
        Some(seq![ArgKind::LongLong, ArgKind::Bits(2)])
    } else if class_id == 85 && method_id == 10 {
        Some(seq![ArgKind::Bits(1)])
    } else if class_id == 85 && method_id == 11 {
        Some(seq![])
    } else if class_id == 90 && method_id == 10 {
        Some(seq![])
    } else if class_id == 90 && method_id == 11 {
        Some(seq![])
    } else if class_id == 90 && method_id == 20 {
        Some(seq![])
    } else if class_id == 90 && method_id == 21 {
        Some(seq![])
    } else if class_id == 90 && method_id == 30 {
        Some(seq![])
    } else if class_id == 90 && method_id == 31 {
        Some(seq![])
    } else {
        None
    }
}

/// The argument kinds of a method.
pub fn method_signature(class_id: u16, method_id: u16) -> (r: Option<Vec<ArgKind>>)
    ensures
        match r {
            Some(v) => signature(class_id, method_id) == Some(v@),
            None => signature(class_id, method_id) is None,
        },
{
    if class_id == 10 && method_id == 10 {
        Some(vec![ArgKind::Octet, ArgKind::Octet, ArgKind::Table, ArgKind::LongStr, ArgKind::LongStr])
    } else if class_id == 10 && method_id == 11 {
        Some(vec![ArgKind::Table, ArgKind::ShortStr, ArgKind::LongStr, ArgKind::ShortStr])
    } else if class_id == 10 && method_id == 20 {
        Some(vec![ArgKind::LongStr])
    } else if class_id == 10 && method_id == 21 {
        Some(vec![ArgKind::LongStr])
    } else if class_id == 10 && method_id == 30 {
        Some(vec![ArgKind::Short, ArgKind::Long, ArgKind::Short])
    } else if class_id == 10 && method_id == 31 {
        Some(vec![ArgKind::Short, ArgKind::Long, ArgKind::Short])
    } else if class_id == 10 && method_id == 40 {
        Some(vec![ArgKind::ShortStr, ArgKind::ShortStr, ArgKind::Bits(1)])
    } else if class_id == 10 && method_id == 41 {
        Some(vec![ArgKind::ShortStr])
    } else if class_id == 10 && method_id == 50 {
        Some(vec![ArgKind::Short, ArgKind::ShortStr, ArgKind::Short, ArgKind::Short])
    } else if class_id == 10 && method_id == 51 {
        Some(vec![])
    } else if class_id == 20 && method_id == 10 {
        Some(vec![ArgKind::ShortStr])
    } else if class_id == 20 && method_id == 11 {
        Some(vec![ArgKind::LongStr])
    } else if class_id == 20 && method_id == 20 {
        Some(vec![ArgKind::Bits(1)])
    } else if class_id == 20 && method_id == 21 {
        Some(vec![ArgKind::Bits(1)])
    } else if class_id == 20 && method_id == 40 {
        Some(vec![ArgKind::Short, ArgKind::ShortStr, ArgKind::Short, ArgKind::Short])
    } else if class_id == 20 && method_id == 41 {
        Some(vec![])
    } else if class_id == 40 && method_id == 10 {
        Some(vec![ArgKind::Short, ArgKind::ShortStr, ArgKind::ShortStr, ArgKind::Bits(5), ArgKind::Table])
    } else if class_id == 40 && method_id == 11 {
        Some(vec![])
    } else if class_id == 40 && method_id == 20 {
        Some(vec![ArgKind::Short, ArgKind::ShortStr, ArgKind::Bits(2)])
    } else if class_id == 40 && method_id == 21 {
        Some(vec![])
    } else if class_id == 50 && method_id == 10 {
        Some(vec![ArgKind::Short, ArgKind::ShortStr, ArgKind::Bits(5), ArgKind::Table])
    } else if class_id == 50 && method_id == 11 {
        Some(vec![ArgKind::ShortStr, ArgKind::Long, ArgKind::Long])
    } else if class_id == 50 && method_id == 20 {
        Some(vec![ArgKind::Short, ArgKind::ShortStr, ArgKind::ShortStr, ArgKind::ShortStr, ArgKind::Bits(1), ArgKind::Table])
    } else if class_id == 50 && method_id == 21 {
        Some(vec![])
    } else if class_id == 50 && method_id == 30 {
        Some(vec![ArgKind::Short, ArgKind::ShortStr, ArgKind::Bits(1)])
    } else if class_id == 50 && method_id == 31 {
        Some(vec![ArgKind::Long])
    } else if class_id == 50 && method_id == 40 {
        Some(vec![ArgKind::Short, ArgKind::ShortStr, ArgKind::Bits(3)])
    } else if class_id == 50 && method_id == 41 {
        Some(vec![ArgKind::Long])
    } else if class_id == 50 && method_id == 50 {
        Some(vec![ArgKind::Short, ArgKind::ShortStr, ArgKind::ShortStr, ArgKind::ShortStr, ArgKind::Table])
    } else if class_id == 50 && method_id == 51 {
        Some(vec![])
    } else if class_id == 60 && method_id == 10 {
        Some(vec![ArgKind::Long, ArgKind::Short, ArgKind::Bits(1)])
    } else if class_id == 60 && method_id == 11 {
        Some(vec![])
    } else if class_id == 60 && method_id == 20 {
        Some(vec![ArgKind::Short, ArgKind::ShortStr, ArgKind::ShortStr, ArgKind::Bits(4), ArgKind::Table])
    } else if class_id == 60 && method_id == 21 {
        Some(vec![ArgKind::ShortStr])
    } else if class_id == 60 && method_id == 30 {
        Some(vec![ArgKind::ShortStr, ArgKind::Bits(1)])
    } else if class_id == 60 && method_id == 31 {
        Some(vec![ArgKind::ShortStr])
    } else if class_id == 60 && method_id == 40 {
        Some(vec![ArgKind::Short, ArgKind::ShortStr, ArgKind::ShortStr, ArgKind::Bits(2)])
    } else if class_id == 60 && method_id == 50 {
        Some(vec![ArgKind::Short, ArgKind::ShortStr, ArgKind::ShortStr, ArgKind::ShortStr])
    } else if class_id == 60 && method_id == 60 {
        Some(vec![ArgKind::ShortStr, ArgKind::LongLong, ArgKind::Bits(1), ArgKind::ShortStr, ArgKind::ShortStr])
    } else if class_id == 60 && method_id == 70 {
        Some(vec![ArgKind::Short, ArgKind::ShortStr, ArgKind::Bits(1)])
    } else if class_id == 60 && method_id == 71 {
        Some(vec![ArgKind::LongLong, ArgKind::Bits(1), ArgKind::ShortStr, ArgKind::ShortStr, ArgKind::Long])
    } else if class_id == 60 && method_id == 72 {
        Some(vec![ArgKind::ShortStr])
    } else if class_id == 60 && method_id == 80 {
        Some(vec![ArgKind::LongLong, ArgKind::Bits(1)])
    } else if class_id == 60 && method_id == 90 {
        Some(vec![ArgKind::LongLong, ArgKind::Bits(1)])
    } else if class_id == 60 && method_id == 100 {
        Some(vec![ArgKind::Bits(1)])
    } else if class_id == 60 && method_id == 110 {
        Some(vec![ArgKind::Bits(1)])
    } else if class_id == 60 && method_id == 111 {
        Some(vec![])
    } else if class_id == 60 && method_id == 120 {
        Some(vec![ArgKind::LongLong, ArgKind::Bits(2)])
    } else if class_id == 85 && method_id == 10 {
        Some(vec![ArgKind::Bits(1)])
    } else if class_id == 85 && method_id == 11 {
        Some(vec![])
    } else if class_id == 90 && method_id == 10 {
        Some(vec![])
    } else if class_id == 90 && method_id == 11 {
        Some(vec![])
    } else if class_id == 90 && method_id == 20 {
        Some(vec![])
    } else if class_id == 90 && method_id == 21 {
        Some(vec![])
    } else if class_id == 90 && method_id == 30 {
        Some(vec![])
    } else if class_id == 90 && method_id == 31 {
        Some(vec![])
    } else {
        None
    }
}

/// Decodes an argument of kind `k` from the front of `s`, with what follows it.
pub open spec fn dec_arg(k: ArgKind, s: Seq<u8>) -> Option<(ArgVal, Seq<u8>)> {
    match k {
        ArgKind::Octet => if s.len() >= 1 {
            Some((ArgVal::Octet(s[0]), s.skip(1)))
        } else {
            None
        },
        ArgKind::Short => if s.len() >= 2 {
            Some((ArgVal::Short(be16(s) as u16), s.skip(2)))
        } else {
            None
        },
        ArgKind::Long => if s.len() >= 4 {
            Some((ArgVal::Long(be32(s) as u32), s.skip(4)))
        } else {
            None
        },
        ArgKind::LongLong => if s.len() >= 8 {
            Some((ArgVal::LongLong(be64(s) as u64), s.skip(8)))
        } else {
            None
        },
        ArgKind::ShortStr => match dec_shortstr(s) {
            Some((st, rest)) => Some((ArgVal::ShortStr(st), rest)),
            None => None,
        },
        ArgKind::LongStr => if s.len() >= 4 && s.len() >= 4 + be32(s) {
            Some((ArgVal::LongStr(s.subrange(4, 4 + be32(s))), s.skip(4 + be32(s))))
        } else {
            None
        },
        ArgKind::Bits(n) => if s.len() >= bit_octets(n as int) {
            Some((ArgVal::Bits(unpack_bits(s, n as int)), s.skip(bit_octets(n as int))))
        } else {
            None
        },
        ArgKind::Table => match dec_table(s) {
            Some((t, rest)) => Some((ArgVal::Table(t), rest)),
            None => None,
        },
    }
}

/// Decodes arguments of the kinds `ks`, in order, from the front of `s`.
pub open spec fn dec_args(ks: Seq<ArgKind>, s: Seq<u8>) -> Option<(Seq<ArgVal>, Seq<u8>)>
    decreases ks.len(),
{
    if ks.len() == 0 {
        Some((Seq::empty(), s))
    } else {
        match dec_arg(ks[0], s) {
            Some((a, r)) => match dec_args(ks.skip(1), r) {
                Some((rest_args, r2)) => Some((seq![a] + rest_args, r2)),
                None => None,
            },
            None => None,
        }
    }
}

/// Decodes a method payload: class id, method id, then exactly the arguments
/// that the method's signature lists.
pub open spec fn dec_method(s: Seq<u8>) -> Option<(u16, u16, Seq<ArgVal>)> {
    if s.len() >= 4 {
        let c = be16(s) as u16;
        let m = be16(s.skip(2)) as u16;
        match signature(c, m) {
            Some(ks) => match dec_args(ks, s.skip(4)) {
                Some((args, rest)) => if rest.len() == 0 {
                    Some((c, m, args))
                } else {
                    None
                },
                None => None,
            },
            None => None,
        }
    } else {
        None
    }
}

pub open spec fn enc_arg(a: ArgVal) -> Seq<u8> {
    match a {
        ArgVal::Octet(x) => seq![x],
        ArgVal::Short(x) => enc16(x as int),
        ArgVal::Long(x) => enc32(x as int),
        ArgVal::LongLong(x) => enc64(x as int),
        ArgVal::ShortStr(st) => enc_shortstr(st),
        ArgVal::LongStr(b) => enc_longstr(b),
        ArgVal::Bits(b) => pack_bits(b),
        ArgVal::Table(t) => enc_table(t),
    }
}

pub open spec fn enc_args(args: Seq<ArgVal>) -> Seq<u8>
    decreases args.len(),
{
    if args.len() == 0 {
        Seq::empty()
    } else {
        enc_arg(args[0]) + enc_args(args.skip(1))
    }
}

/// The payload of a method frame.
pub open spec fn enc_method(class_id: u16, method_id: u16, args: Seq<ArgVal>) -> Seq<u8> {
    enc16(class_id as int) + enc16(method_id as int) + enc_args(args)
}

/// An argument has kind `k` and can be encoded.
pub open spec fn arg_fits(a: ArgVal, k: ArgKind) -> bool {
    match (a, k) {
        (ArgVal::Octet(_), ArgKind::Octet) => true,
        (ArgVal::Short(_), ArgKind::Short) => true,
        (ArgVal::Long(_), ArgKind::Long) => true,
        (ArgVal::LongLong(_), ArgKind::LongLong) => true,
        (ArgVal::ShortStr(st), ArgKind::ShortStr) => encode_utf8(st).len() <= 255,
        (ArgVal::LongStr(b), ArgKind::LongStr) => b.len() <= u32::MAX,
        (ArgVal::Bits(b), ArgKind::Bits(n)) => b.len() == n as int,
        (ArgVal::Table(t), ArgKind::Table) => wf_table(t),
        _ => false,
    }
}

/// An argument can be encoded: strings and tables fit their length prefixes.
pub open spec fn arg_encodable(a: ArgVal) -> bool {
    match a {
        ArgVal::ShortStr(st) => encode_utf8(st).len() <= 255,
        ArgVal::LongStr(b) => b.len() <= u32::MAX,
        ArgVal::Table(t) => wf_table(t),
        _ => true,
    }
}

/// The arguments match the kinds `ks`, one for one.
pub open spec fn args_fit(args: Seq<ArgVal>, ks: Seq<ArgKind>) -> bool {
    args.len() == ks.len() && forall|i: int| 0 <= i < args.len() ==> #[trigger] arg_fits(args[i], ks[i])
}

/// A method can be written: its ids name a method, and its arguments match the signature.
pub open spec fn method_wf(m: Method) -> bool {
    signature(m.class_id, m.method_id) matches Some(ks) && args_fit(args_model(m.arguments@), ks)
}

proof fn lemma_arg_round_trip(a: ArgVal, k: ArgKind, rest: Seq<u8>)
    requires
        arg_fits(a, k),
    ensures
        dec_arg(k, enc_arg(a) + rest) == Some((a, rest)),
{
    let s = enc_arg(a) + rest;
    match a {
        ArgVal::Octet(x) => {
            assert(s.skip(1) =~= rest);
        },
        ArgVal::Short(x) => lemma_be16(x as int, rest),
        ArgVal::Long(x) => lemma_be32(x as int, rest),
        ArgVal::LongLong(x) => lemma_be64(x as int, rest),
        ArgVal::ShortStr(st) => lemma_shortstr_round_trip(st, rest),
        ArgVal::LongStr(b) => {
            let n = b.len() as int;
            assert(s =~= enc32(n) + (b + rest));
            lemma_be32(n, b + rest);
            assert(s.subrange(4, 4 + n) =~= b);
            assert(s.skip(4 + n) =~= rest);
        },
        ArgVal::Bits(b) => lemma_bits_round_trip(b, rest),
        ArgVal::Table(t) => lemma_table_round_trip(t, rest),
    }
}

proof fn lemma_args_round_trip(args: Seq<ArgVal>, ks: Seq<ArgKind>, rest: Seq<u8>)
    requires
        args_fit(args, ks),
    ensures
        dec_args(ks, enc_args(args) + rest) == Some((args, rest)),
    decreases ks.len(),
{
    if ks.len() == 0 {
        assert(args =~= Seq::<ArgVal>::empty());
        assert(enc_args(args) + rest =~= rest);
    } else {
        let tail = enc_args(args.skip(1)) + rest;
        assert(arg_fits(args[0], ks[0]));
        lemma_arg_round_trip(args[0], ks[0], tail);
        assert(enc_args(args) + rest =~= enc_arg(args[0]) + tail);
        assert forall|i: int| 0 <= i < args.skip(1).len() implies #[trigger] arg_fits(
            args.skip(1)[i],
            ks.skip(1)[i],
        ) by {
            assert(arg_fits(args[i + 1], ks[i + 1]));
        }
        lemma_args_round_trip(args.skip(1), ks.skip(1), rest);
        assert(seq![args[0]] + args.skip(1) =~= args);
    }
}

/// Parsing the payload that a method serializes to gives the method back:
/// the same ids and the same arguments, for every method of the protocol.
pub proof fn lemma_method_round_trip(class_id: u16, method_id: u16, args: Seq<ArgVal>)
    requires
        signature(class_id, method_id) matches Some(ks) && args_fit(args, ks),
    ensures
        dec_method(enc_method(class_id, method_id, args)) == Some((class_id, method_id, args)),
{
    let ks = signature(class_id, method_id)->Some_0;
    let body = enc_args(args);
    let s = enc_method(class_id, method_id, args);
    assert(s =~= enc16(class_id as int) + (enc16(method_id as int) + body));
    lemma_be16(class_id as int, enc16(method_id as int) + body);
    lemma_be16(method_id as int, body);
    assert(s.skip(4) =~= body + Seq::<u8>::empty());
    lemma_args_round_trip(args, ks, Seq::empty());
}

fn syntax_err() -> (e: TransError)
    ensures
        e == syntax_error(),
{
    ConException::SyntaxError.into_trans()
}

/// Reads one argument of kind `kind`.
pub fn argument(kind: ArgKind, input: &[u8]) -> (r: Result<(&[u8], Argument), TransError>)
    ensures
        match r {
            Ok((rest, a)) => dec_arg(kind, input@) == Some((a.model(), rest@)),
            Err(e) => dec_arg(kind, input@) is None && e == syntax_error(),
        },
{
    match kind {
        ArgKind::Octet => {
            let (rest, x) = octet(input)?;
            Ok((rest, Argument::Octet(x)))
        },
        ArgKind::Short => {
            let (rest, x) = short(input)?;
            Ok((rest, Argument::Short(x)))
        },
        ArgKind::Long => {
            let (rest, x) = long(input)?;
            Ok((rest, Argument::Long(x)))
        },
        ArgKind::LongLong => {
            let (rest, x) = longlong(input)?;
            Ok((rest, Argument::LongLong(x)))
        },
        ArgKind::ShortStr => {
            let (rest, x) = shortstr(input)?;
            Ok((rest, Argument::ShortStr(x)))
        },
        ArgKind::LongStr => {
            let (rest, x) = longstr(input)?;
            Ok((rest, Argument::LongStr(x)))
        },
        ArgKind::Bits(n) => {
            let (rest, x) = bit(input, n as usize)?;
            Ok((rest, Argument::Bits(x)))
        },
        ArgKind::Table => {
            let (rest, x) = table(input)?;
            Ok((rest, Argument::Table(x)))
        },
    }
}

/// Parses the payload of a method frame into the method. An unknown
/// (class, method) pair is `CommandInvalid`; a payload that is short, or
/// longer than the arguments, is a `SyntaxError`.
pub fn parse_method(payload: &[u8]) -> (r: Result<Method, TransError>)
    ensures
        match r {
            Ok(m) => dec_method(payload@) == Some((m.class_id, m.method_id, args_model(m.arguments@))),
            Err(e) => dec_method(payload@) is None,
        },
        payload@.len() < 4 ==> r == Err::<Method, TransError>(syntax_error()),
        payload@.len() >= 4 && signature(be16(payload@) as u16, be16(payload@.skip(2)) as u16) is Some
            && dec_method(payload@) is None ==> r == Err::<Method, TransError>(syntax_error()),
        payload@.len() >= 4 && signature(be16(payload@) as u16, be16(payload@.skip(2)) as u16) is None
            ==> r == Err::<Method, TransError>(
                TransError::Invalid(ProtocolError::ConException(ConException::CommandInvalid)),
            ),
{
    if payload.len() < 4 {
        return Err(syntax_err());
    }
    let (rest, class_id) = match short(payload) {
        Ok(x) => x,
        Err(_) => return Err(syntax_err()),
    };
    let (rest, method_id) = match short(rest) {
        Ok(x) => x,
        Err(_) => return Err(syntax_err()),
    };
    assert(rest@ =~= payload@.skip(4));
    assert(payload@.skip(2).skip(2) =~= payload@.skip(4));
    let kinds = match method_signature(class_id, method_id) {
        Some(k) => k,
        None => return Err(ConException::CommandInvalid.into_trans()),
    };
    let mut arguments: Vec<Argument> = Vec::new();
    let mut cur = rest;
    let mut i: usize = 0;
    assert(kinds@.skip(0) =~= kinds@);
    while i < kinds.len()
        invariant
            i <= kinds@.len(),
            payload@.len() >= 4,
            rest@ == payload@.skip(4),
            class_id == be16(payload@) as u16,
            method_id == be16(payload@.skip(2)) as u16,
            signature(class_id, method_id) == Some(kinds@),
            dec_args(kinds@, rest@) == match dec_args(kinds@.skip(i as int), cur@) {
                Some((t, r2)) => Some((args_model(arguments@) + t, r2)),
                None => None,
            },
        decreases kinds@.len() - i,
    {
        let ghost ks = kinds@.skip(i as int);
        assert(ks[0] == kinds@[i as int]);
        assert(ks.skip(1) =~= kinds@.skip(i + 1));
        let (next, a) = match argument(kinds[i], cur) {
            Ok(x) => x,
            Err(e) => {
                assert(dec_args(ks, cur@) is None);
                return Err(syntax_err());
            },
        };
        proof {
            assert(args_model(arguments@.push(a)) =~= args_model(arguments@) + seq![a.model()]);
            match dec_args(kinds@.skip(i + 1), next@) {
                Some((t, r2)) => {
                    assert(args_model(arguments@) + (seq![a.model()] + t) =~= args_model(arguments@)
                        + seq![a.model()] + t);
                },
                None => {},
            }
        }
        arguments.push(a);
        cur = next;
        i = i + 1;
    }
    assert(kinds@.skip(kinds@.len() as int) =~= Seq::<ArgKind>::empty());
    assert(args_model(arguments@) + Seq::<ArgVal>::empty() =~= args_model(arguments@));
    if cur.len() != 0 {
        return Err(syntax_err());
    }
    Ok(Method { class_id, method_id, arguments })
}

/// Writes one argument.
pub fn write_argument(out: &mut Vec<u8>, a: &Argument)
    requires
        arg_encodable(a.model()),
    ensures
        final(out)@ == old(out)@ + enc_arg(a.model()),
{
    match a {
        Argument::Octet(x) => write_octet(out, *x),
        Argument::Short(x) => write_short(out, *x),
        Argument::Long(x) => write_long(out, *x),
        Argument::LongLong(x) => write_longlong(out, *x),
        Argument::ShortStr(s) => write_shortstr(out, s.as_str()),
        Argument::LongStr(b) => write_longstr(out, b.as_slice()),
        Argument::Bits(b) => write_bits(out, b.as_slice()),
        Argument::Table(t) => write_table(out, t),
    }
}

/// The payload of a method frame holding `method`.
pub fn serialize_method(method: &Method) -> (r: Vec<u8>)
    requires
        method_wf(*method),
    ensures
        r@ == enc_method(method.class_id, method.method_id, args_model(method.arguments@)),
{
    let ghost ks = signature(method.class_id, method.method_id)->Some_0;
    let mut out: Vec<u8> = Vec::new();
    write_short(&mut out, method.class_id);
    write_short(&mut out, method.method_id);
    let ghost head = out@;
    let ghost all = args_model(method.arguments@);
    let mut i: usize = 0;
    assert(all.skip(0) =~= all);
    while i < method.arguments.len()
        invariant
            i <= method.arguments@.len(),
            all == args_model(method.arguments@),
            args_fit(all, ks),
            head + enc_args(all) == out@ + enc_args(all.skip(i as int)),
        decreases method.arguments@.len() - i,
    {
        let ghost tail = all.skip(i as int);
        assert(tail[0] == method.arguments@[i as int].model());
        assert(tail.skip(1) =~= all.skip(i + 1));
        assert(arg_fits(all[i as int], ks[i as int]));
        let ghost before = out@;
        write_argument(&mut out, &method.arguments[i]);
        i = i + 1;
        assert(before + enc_args(tail) =~= out@ + enc_args(all.skip(i as int)));
    }
    assert(all.skip(i as int) =~= Seq::<ArgVal>::empty());
    assert(out@ + Seq::<u8>::empty() =~= out@);
    assert(out@ =~= enc_method(method.class_id, method.method_id, all));
    out
}

} // verus!
