use vstd::prelude::*;
use vstd::string::StrSliceExecFns;
use crate::decimal::decimal_cmp;
use crate::types::{canonical_float, Field, FieldValue};

verus! {

/// Lexicographic order on sequences of code units.
pub open spec fn lex_lt(a: Seq<u32>, b: Seq<u32>) -> bool
    decreases a.len(),
{
    if a.len() == 0 {
        b.len() > 0
    } else if b.len() == 0 {
        false
    } else if a[0] != b[0] {
        a[0] < b[0]
    } else {
        lex_lt(a.drop_first(), b.drop_first())
    }
}

pub open spec fn char_codes(s: Seq<char>) -> Seq<u32> {
    s.map_values(|c: char| c as u32)
}

pub open spec fn byte_codes(s: Seq<u8>) -> Seq<u32> {
    s.map_values(|b: u8| b as u32)
}

/// Position of each kind of value in the order of fields.
pub open spec fn rank(f: FieldValue) -> int {
    match f {
        FieldValue::UInt(_) => 0,
        FieldValue::Int(_) => 1,
        FieldValue::Float(_) => 2,
        FieldValue::Boolean(_) => 3,
        FieldValue::String(_) => 4,
        FieldValue::Text(_) => 5,
        FieldValue::Binary(_) => 6,
        FieldValue::Decimal(_) => 7,
        FieldValue::Timestamp(_) => 8,
        FieldValue::Date(_) => 9,
        FieldValue::Json(_) => 10,
        FieldValue::Null => 11,
    }
}

pub open spec fn is_nan_bits(b: u64) -> bool {
    (b & 0x7ff0_0000_0000_0000u64) == 0x7ff0_0000_0000_0000u64 && (b & 0x000f_ffff_ffff_ffffu64) != 0
}

/// Where the float with bits `b` stands in numeric order: numbers by value,
/// with both zeros together, and every NaN above positive infinity.
pub open spec fn float_key(b: u64) -> int {
    if is_nan_bits(b) {
        0x8000_0000_0000_0000int
    } else if b >= 0x8000_0000_0000_0000u64 {
        -((b & 0x7fff_ffff_ffff_ffffu64) as int)
    } else {
        b as int
    }
}

/// The order of fields: by kind first, then by value; strings and bytes
/// compare lexicographically.
pub open spec fn field_lt(a: FieldValue, b: FieldValue) -> bool {
    if rank(a) != rank(b) {
        rank(a) < rank(b)
    } else {
        match (a, b) {
            (FieldValue::UInt(x), FieldValue::UInt(y)) => x < y,
            (FieldValue::Int(x), FieldValue::Int(y)) => x < y,
            (FieldValue::Float(x), FieldValue::Float(y)) => float_key(x) < float_key(y),
            (FieldValue::Boolean(x), FieldValue::Boolean(y)) => !x && y,
            (FieldValue::String(x), FieldValue::String(y)) => lex_lt(char_codes(x), char_codes(y)),
            (FieldValue::Text(x), FieldValue::Text(y)) => lex_lt(char_codes(x), char_codes(y)),
            (FieldValue::Binary(x), FieldValue::Binary(y)) => lex_lt(byte_codes(x), byte_codes(y)),
            (FieldValue::Decimal(x), FieldValue::Decimal(y)) => x < y,
            (FieldValue::Timestamp(x), FieldValue::Timestamp(y)) => x < y,
            (FieldValue::Date(x), FieldValue::Date(y)) => x < y,
            (FieldValue::Json(x), FieldValue::Json(y)) => lex_lt(char_codes(x), char_codes(y)),
            _ => false,
        }
    }
}

proof fn lemma_lex_skip(a: Seq<u32>, b: Seq<u32>, i: int)
    requires
        0 <= i < a.len(),
        i < b.len(),
        a[i] == b[i],
        lex_lt(a, b) == lex_lt(a.skip(i), b.skip(i)),
    ensures
        lex_lt(a, b) == lex_lt(a.skip(i + 1), b.skip(i + 1)),
{
    assert(a.skip(i).drop_first() =~= a.skip(i + 1));
    assert(b.skip(i).drop_first() =~= b.skip(i + 1));
}

fn codes_less(a: &Vec<u32>, b: &Vec<u32>) -> (r: bool)
    ensures
        r == lex_lt(a@, b@),
{
    let mut i: usize = 0;
    assert(a@.skip(0) =~= a@ && b@.skip(0) =~= b@);
    while i < a.len() && i < b.len()
        invariant
            i <= a@.len(),
            i <= b@.len(),
            lex_lt(a@, b@) == lex_lt(a@.skip(i as int), b@.skip(i as int)),
        decreases a@.len() - i,
    {
        if a[i] != b[i] {
            return a[i] < b[i];
        }
        proof {
            lemma_lex_skip(a@, b@, i as int);
        }
        i = i + 1;
    }
    i == a.len() && i < b.len()
}

fn string_codes(s: &String) -> (r: Vec<u32>)
    ensures
        r@ == char_codes(s@),
{
    let text = s.as_str();
    let len = text.unicode_len();
    let mut r: Vec<u32> = Vec::new();
    let mut i: usize = 0;
    while i < len
        invariant
            len == s@.len(),
            text@ == s@,
            i <= len,
            r@ == char_codes(s@.subrange(0, i as int)),
        decreases len - i,
    {
        let c = text.get_char(i);
        r.push(c as u32);
        assert(char_codes(s@.subrange(0, i + 1)) =~= char_codes(s@.subrange(0, i as int)).push(c as u32));
        i = i + 1;
    }
    assert(s@.subrange(0, len as int) =~= s@);
    r
}

fn bytes_codes(s: &Vec<u8>) -> (r: Vec<u32>)
    ensures
        r@ == byte_codes(s@),
{
    let mut r: Vec<u32> = Vec::new();
    let mut i: usize = 0;
    while i < s.len()
        invariant
            i <= s@.len(),
            r@ == byte_codes(s@.subrange(0, i as int)),
        decreases s@.len() - i,
    {
        r.push(s[i] as u32);
        assert(byte_codes(s@.subrange(0, i + 1)) =~= byte_codes(s@.subrange(0, i as int)).push(s@[i as int] as u32));
        i = i + 1;
    }
    assert(s@.subrange(0, s@.len() as int) =~= s@);
    r
}

fn rank_of(f: &Field) -> (r: u8)
    ensures
        r as int == rank(f@),
{
    match f {
        Field::UInt(_) => 0,
        Field::Int(_) => 1,
        Field::Float(_) => 2,
        Field::Boolean(_) => 3,
        Field::String(_) => 4,
        Field::Text(_) => 5,
        Field::Binary(_) => 6,
        Field::Decimal(_) => 7,
        Field::Timestamp(_) => 8,
        Field::Date(_) => 9,
        Field::Json(_) => 10,
        Field::Null => 11,
    }
}

proof fn lemma_canonical_key(b: u64)
    ensures
        float_key(canonical_float(b)) == float_key(b),
{
    assert(is_nan_bits(0x7ff8_0000_0000_0000u64)) by (bit_vector);
    assert(!is_nan_bits(0u64)) by (bit_vector);
    assert(!is_nan_bits(0x8000_0000_0000_0000u64)) by (bit_vector);
    assert(0x8000_0000_0000_0000u64 & 0x7fff_ffff_ffff_ffffu64 == 0) by (bit_vector);
}

fn canonical_float_exec(b: u64) -> (r: u64)
    ensures
        r == canonical_float(b),
{
    if (b & 0x7ff0_0000_0000_0000u64) == 0x7ff0_0000_0000_0000u64 && (b & 0x000f_ffff_ffff_ffffu64) != 0 {
        0x7ff8_0000_0000_0000u64
    } else if b == 0x8000_0000_0000_0000u64 {
        0
    } else {
        b
    }
}

fn float_order_key(b: u64) -> (r: i128)
    ensures
        r == float_key(b),
{
    if (b & 0x7ff0_0000_0000_0000u64) == 0x7ff0_0000_0000_0000u64 && (b & 0x000f_ffff_ffff_ffffu64) != 0 {
        0x8000_0000_0000_0000i128
    } else if b >= 0x8000_0000_0000_0000u64 {
        -((b & 0x7fff_ffff_ffff_ffffu64) as i128)
    } else {
        b as i128
    }
}

/// Whether `a` comes before `b` in the order of fields.
pub fn field_less(a: &Field, b: &Field) -> (r: bool)
    ensures
        r == field_lt(a@, b@),
{
    let ra = rank_of(a);
    let rb = rank_of(b);
    if ra != rb {
        return ra < rb;
    }
    match (a, b) {
        (Field::UInt(x), Field::UInt(y)) => *x < *y,
        (Field::Int(x), Field::Int(y)) => *x < *y,
        (Field::Float(x), Field::Float(y)) => {
            proof {
                lemma_canonical_key(*x);
                lemma_canonical_key(*y);
            }
            float_order_key(*x) < float_order_key(*y)
        },
        (Field::Boolean(x), Field::Boolean(y)) => !*x && *y,
        (Field::String(x), Field::String(y)) => codes_less(&string_codes(x), &string_codes(y)),
        (Field::Text(x), Field::Text(y)) => codes_less(&string_codes(x), &string_codes(y)),
        (Field::Binary(x), Field::Binary(y)) => codes_less(&bytes_codes(x), &bytes_codes(y)),
        (Field::Decimal(x), Field::Decimal(y)) => decimal_cmp(x, y) < 0,
        (Field::Timestamp(x), Field::Timestamp(y)) => *x < *y,
        (Field::Date(x), Field::Date(y)) => *x < *y,
        (Field::Json(x), Field::Json(y)) => codes_less(&string_codes(x), &string_codes(y)),
        _ => false,
    }
}

/// Whether two fields hold the same value.
pub fn field_eq(a: &Field, b: &Field) -> (r: bool)
    ensures
        r == (a@ == b@),
{
    match (a, b) {
        (Field::UInt(x), Field::UInt(y)) => *x == *y,
        (Field::Int(x), Field::Int(y)) => *x == *y,
        (Field::Float(x), Field::Float(y)) => canonical_float_exec(*x) == canonical_float_exec(*y),
        (Field::Boolean(x), Field::Boolean(y)) => *x == *y,
        (Field::String(x), Field::String(y)) => *x == *y,
        (Field::Text(x), Field::Text(y)) => *x == *y,
        (Field::Binary(x), Field::Binary(y)) => {
            if x.len() != y.len() {
                assert(x@.len() != y@.len());
                return false;
            }
            let mut i: usize = 0;
            while i < x.len()
                invariant
                    a@ == FieldValue::Binary(x@),
                    b@ == FieldValue::Binary(y@),
                    x@.len() == y@.len(),
                    i <= x@.len(),
                    forall|j: int| 0 <= j < i ==> x@[j] == y@[j],
                decreases x@.len() - i,
            {
                if x[i] != y[i] {
                    assert(x@[i as int] != y@[i as int]);
                    assert(x@ != y@);
                    assert(a@ == FieldValue::Binary(x@) && b@ == FieldValue::Binary(y@));
                    assert(a@ != b@);
                    return false;
                }
                i = i + 1;
            }
            assert(x@ =~= y@);
            true
        },
        (Field::Decimal(x), Field::Decimal(y)) => decimal_cmp(x, y) == 0,
        (Field::Timestamp(x), Field::Timestamp(y)) => *x == *y,
        (Field::Date(x), Field::Date(y)) => *x == *y,
        (Field::Json(x), Field::Json(y)) => *x == *y,
        (Field::Null, Field::Null) => true,
        _ => false,
    }
}

pub proof fn lemma_lex_trans(a: Seq<u32>, b: Seq<u32>, c: Seq<u32>)
    requires
        lex_lt(a, b),
        lex_lt(b, c),
    ensures
        lex_lt(a, c),
    decreases a.len(),
{
    if a.len() > 0 && b.len() > 0 && c.len() > 0 && a[0] == b[0] && b[0] == c[0] {
        lemma_lex_trans(a.drop_first(), b.drop_first(), c.drop_first());
    }
}

pub proof fn lemma_field_trans(a: FieldValue, b: FieldValue, c: FieldValue)
    requires
        field_lt(a, b),
        field_lt(b, c),
    ensures
        field_lt(a, c),
{
    if rank(a) == rank(b) && rank(b) == rank(c) {
        match (a, b, c) {
            (FieldValue::String(x), FieldValue::String(y), FieldValue::String(z)) =>
                lemma_lex_trans(char_codes(x), char_codes(y), char_codes(z)),
            (FieldValue::Text(x), FieldValue::Text(y), FieldValue::Text(z)) =>
                lemma_lex_trans(char_codes(x), char_codes(y), char_codes(z)),
            (FieldValue::Binary(x), FieldValue::Binary(y), FieldValue::Binary(z)) =>
                lemma_lex_trans(byte_codes(x), byte_codes(y), byte_codes(z)),
            (FieldValue::Json(x), FieldValue::Json(y), FieldValue::Json(z)) =>
                lemma_lex_trans(char_codes(x), char_codes(y), char_codes(z)),
            _ => {},
        }
    }
}

} // verus!
