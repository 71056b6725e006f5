//! The textual form of a value.
use vstd::prelude::*;
use crate::model::ValueModel;
use crate::message::Value;
use crate::oid::{Oid, dotted, lemma_dotted_ascii};
use crate::text::{
    dec_digits, signed_digits, push_decimal, push_signed, ascii_chars, is_ascii_text,
    lemma_dec_digits_ascii, string_from_ascii, string_from_utf8, utf8_text,
};

verus! {

pub open spec fn hex_digit(n: nat) -> u8 {
    if n < 10 {
        (48 + n) as u8
    } else {
        (87 + n) as u8
    }
}

/// Two lower-case hex digits for each byte.
pub open spec fn hex_bytes(b: Seq<u8>) -> Seq<u8>
    decreases b.len(),
{
    if b.len() == 0 {
        seq![]
    } else {
        hex_bytes(b.drop_last()) + seq![hex_digit((b.last() / 16) as nat), hex_digit((b.last() % 16) as nat)]
    }
}

/// `0x` and the hex digits of the bytes.
pub open spec fn hex_text(b: Seq<u8>) -> Seq<u8> {
    seq![48u8, 120u8] + hex_bytes(b)
}

/// The ASCII text of a value: numbers in decimal, identifiers and
/// addresses dotted, octet strings and opaque data as hex, and the names of
/// NULL and of the exception indicators.
pub open spec fn plain_text(v: ValueModel) -> Seq<u8> {
    match v {
        ValueModel::Integer(i) => signed_digits(i as int),
        ValueModel::OctetString(b) => hex_text(b),
        ValueModel::ObjectId(a) => dotted(a),
        ValueModel::IpAddress(b) => dotted(b.map_values(|x: u8| x as u32)),
        ValueModel::Counter32(n) => dec_digits(n as nat),
        ValueModel::Unsigned32(n) => dec_digits(n as nat),
        ValueModel::TimeTicks(n) => dec_digits(n as nat),
        ValueModel::Counter64(n) => dec_digits(n as nat),
        ValueModel::Opaque(b) => hex_text(b),
        ValueModel::Null => seq![78u8, 85u8, 76u8, 76u8],
        ValueModel::NoSuchObject => seq![
            110u8, 111u8, 83u8, 117u8, 99u8, 104u8, 79u8, 98u8, 106u8, 101u8, 99u8, 116u8,
        ],
        ValueModel::NoSuchInstance => seq![
            110u8, 111u8, 83u8, 117u8, 99u8, 104u8, 73u8, 110u8, 115u8, 116u8, 97u8, 110u8, 99u8, 101u8,
        ],
        ValueModel::EndOfMibView => seq![
            101u8, 110u8, 100u8, 79u8, 102u8, 77u8, 105u8, 98u8, 86u8, 105u8, 101u8, 119u8,
        ],
    }
}

/// The text of a value: an octet string that is valid UTF-8 reads as the
/// characters it encodes; every other value as its plain text.
pub open spec fn value_text(v: ValueModel) -> Seq<char> {
    match v {
        ValueModel::OctetString(b) => match utf8_text(b) {
            Some(t) => t,
            None => ascii_chars(hex_text(b)),
        },
        _ => ascii_chars(plain_text(v)),
    }
}

proof fn lemma_hex_ascii(b: Seq<u8>)
    ensures
        is_ascii_text(hex_bytes(b)),
    decreases b.len(),
{
    if b.len() > 0 {
        lemma_hex_ascii(b.drop_last());
    }
}

proof fn lemma_plain_text_ascii(v: ValueModel)
    ensures
        is_ascii_text(plain_text(v)),
{
    match v {
        ValueModel::Integer(i) => {
            if i < 0 {
                lemma_dec_digits_ascii((-i) as nat);
            } else {
                lemma_dec_digits_ascii(i as nat);
            }
        },
        ValueModel::OctetString(b) => {
            lemma_hex_ascii(b);
        },
        ValueModel::ObjectId(a) => {
            lemma_dotted_ascii(a);
        },
        ValueModel::IpAddress(b) => {
            lemma_dotted_ascii(b.map_values(|x: u8| x as u32));
        },
        ValueModel::Counter32(n) => {
            lemma_dec_digits_ascii(n as nat);
        },
        ValueModel::Unsigned32(n) => {
            lemma_dec_digits_ascii(n as nat);
        },
        ValueModel::TimeTicks(n) => {
            lemma_dec_digits_ascii(n as nat);
        },
        ValueModel::Counter64(n) => {
            lemma_dec_digits_ascii(n as nat);
        },
        ValueModel::Opaque(b) => {
            lemma_hex_ascii(b);
        },
        _ => {},
    }
}

fn hex_char(n: u8) -> (r: u8)
    requires
        n < 16,
    ensures
        r == hex_digit(n as nat),
{
    if n < 10 {
        48 + n
    } else {
        87 + n
    }
}

fn push_hex(out: &mut Vec<u8>, b: &Vec<u8>)
    ensures
        final(out)@ == old(out)@ + hex_text(b@),
{
    out.push(48u8);
    out.push(120u8);
    let ghost start = out@;
    let mut i: usize = 0;
    while i < b.len()
        invariant
            i <= b@.len(),
            start == old(out)@ + seq![48u8, 120u8],
            out@ == start + hex_bytes(b@.take(i as int)),
        decreases b@.len() - i,
    {
        let x = b[i];
        out.push(hex_char(x / 16));
        out.push(hex_char(x % 16));
        proof {
            assert(b@.take(i + 1).drop_last() =~= b@.take(i as int));
        }
        i = i + 1;
        assert(out@ =~= start + hex_bytes(b@.take(i as int)));
    }
    assert(b@.take(i as int) =~= b@);
    assert(out@ =~= old(out)@ + hex_text(b@));
}

fn push_all(out: &mut Vec<u8>, w: Vec<u8>)
    ensures
        final(out)@ == old(out)@ + w@,
{
    let mut w = w;
    out.append(&mut w);
}

/// The text of a value, as `value_text` gives it.
pub fn render(v: &Value) -> (r: String)
    ensures
        r@ == value_text(v@),
{
    if let Value::OctetString(b) = v {
        let copy = b.clone();
        assert(copy@ =~= b@);
        if let Some(text) = string_from_utf8(copy) {
            return text;
        }
    }
    let mut out: Vec<u8> = Vec::new();
    match v {
        Value::Integer(i) => push_signed(&mut out, *i),
        Value::OctetString(b) => push_hex(&mut out, b),
        Value::ObjectId(o) => o.push_dotted(&mut out),
        Value::IpAddress(a) => {
            let o = Oid { arcs: vec![a[0] as u32, a[1] as u32, a[2] as u32, a[3] as u32] };
            assert(o@ =~= a@.map_values(|x: u8| x as u32));
            o.push_dotted(&mut out);
        },
        Value::Counter32(n) => push_decimal(&mut out, *n as u64),
        Value::Unsigned32(n) => push_decimal(&mut out, *n as u64),
        Value::TimeTicks(n) => push_decimal(&mut out, *n as u64),
        Value::Counter64(n) => push_decimal(&mut out, *n),
        Value::Opaque(b) => push_hex(&mut out, b),
        Value::Null => push_all(&mut out, vec![78u8, 85u8, 76u8, 76u8]),
        Value::NoSuchObject => push_all(
            &mut out,
            vec![110u8, 111u8, 83u8, 117u8, 99u8, 104u8, 79u8, 98u8, 106u8, 101u8, 99u8, 116u8],
        ),
        Value::NoSuchInstance => push_all(
            &mut out,
            vec![110u8, 111u8, 83u8, 117u8, 99u8, 104u8, 73u8, 110u8, 115u8, 116u8, 97u8, 110u8, 99u8, 101u8],
        ),
        Value::EndOfMibView => push_all(
            &mut out,
            vec![101u8, 110u8, 100u8, 79u8, 102u8, 77u8, 105u8, 98u8, 86u8, 105u8, 101u8, 119u8],
        ),
    }
    proof {
        assert(out@ =~= plain_text(v@));
        lemma_plain_text_ascii(v@);
    }
    string_from_ascii(out)
}

} // verus!
