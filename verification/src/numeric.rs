//! Decoding of the PostgreSQL `numeric` binary format into decimal text.
//!
//! The wire format is: `int16 ndigits, int16 weight, uint16 sign, int16 dscale,
//! int16 digits[ndigits]`, all big-endian. Each digit is a base-10000 group;
//! the value is `sum digits[i] * 10000^(weight - i)`; sign `0x0000` is positive,
//! `0x4000` negative and `0xC000` NaN.
use vstd::prelude::*;
use crate::models::NumericString;
use crate::text::{
    chars_to_string, decimal, pad4, push_decimal, push_pad4, push_str, push_zeros, zeros,
};

verus! {

/// Why a byte string is not a `numeric` value.
#[derive(Debug, Clone, Copy, PartialEq, Eq, Structural)]
pub enum NumericError {
    /// Fewer than the eight header bytes.
    TooShort,
    /// A negative digit count, or fewer digit bytes than the header announces.
    LengthMismatch,
}

impl NumericError {
    /// The user-facing message of the error.
    pub fn message(&self) -> (res: String)
        ensures
            res@ == numeric_error_message(*self),
    {
        match self {
            NumericError::TooShort => String::from_str("numeric 数据过短"),
            NumericError::LengthMismatch => String::from_str("numeric 数据长度不符"),
        }
    }
}

/// The message shown for each error.
pub open spec fn numeric_error_message(e: NumericError) -> Seq<char> {
    match e {
        NumericError::TooShort => "numeric 数据过短"@,
        NumericError::LengthMismatch => "numeric 数据长度不符"@,
    }
}

/// The unsigned big-endian 16-bit integer at `off`.
pub open spec fn be_u16(raw: Seq<u8>, off: int) -> int {
    raw[off] * 256 + raw[off + 1]
}

/// The signed (two's complement) big-endian 16-bit integer at `off`.
pub open spec fn be_i16(raw: Seq<u8>, off: int) -> int {
    if be_u16(raw, off) >= 0x8000 {
        be_u16(raw, off) - 0x10000
    } else {
        be_u16(raw, off)
    }
}

/// Header field: number of base-10000 digit groups.
pub open spec fn spec_ndigits(raw: Seq<u8>) -> int {
    be_i16(raw, 0)
}

/// Header field: weight (power of 10000) of the first digit group.
pub open spec fn spec_weight(raw: Seq<u8>) -> int {
    be_i16(raw, 2)
}

/// Header field: sign word.
pub open spec fn spec_sign(raw: Seq<u8>) -> int {
    be_u16(raw, 4)
}

/// Header field: display scale, the number of digits after the point.
pub open spec fn spec_dscale(raw: Seq<u8>) -> int {
    be_i16(raw, 6)
}

/// The first `n` digit groups.
pub open spec fn spec_digits(raw: Seq<u8>, n: nat) -> Seq<u16> {
    Seq::new(n, |i: int| be_u16(raw, 8 + 2 * i) as u16)
}

/// The text of the first `count` groups as they lead the integer part: the
/// first group without padding, each following one padded to four digits.
pub open spec fn leading_groups(ds: Seq<u16>, count: nat) -> Seq<char>
    decreases count,
{
    if count == 0 {
        seq![]
    } else if count == 1 {
        decimal(ds[0] as nat)
    } else {
        leading_groups(ds, (count - 1) as nat) + pad4(ds[count - 1] as nat)
    }
}

/// The groups `from .. to`, each padded to four digits.
pub open spec fn padded_groups(ds: Seq<u16>, from: int, to: int) -> Seq<char>
    decreases to - from,
{
    if to <= from {
        seq![]
    } else {
        padded_groups(ds, from, to - 1) + pad4(ds[to - 1] as nat)
    }
}

/// `s` without its leading `'0'` characters (`trim_start_matches('0')`).
pub open spec fn strip_zeros(s: Seq<char>) -> Seq<char>
    decreases s.len(),
{
    if s.len() > 0 && s[0] == '0' {
        strip_zeros(s.drop_first())
    } else {
        s
    }
}

pub open spec fn min(a: int, b: int) -> int {
    if a <= b {
        a
    } else {
        b
    }
}

pub open spec fn max(a: int, b: int) -> int {
    if a >= b {
        a
    } else {
        b
    }
}

/// The integer part before leading zeros are removed: the groups of weight
/// at least zero that are present, then `"0000"` for each absent one.
pub open spec fn raw_int_part(ds: Seq<u16>, weight: int) -> Seq<char> {
    leading_groups(ds, min(weight + 1, ds.len() as int) as nat) + zeros(
        (4 * max(weight + 1 - ds.len(), 0)) as nat,
    )
}

/// The integer part of the decimal text.
pub open spec fn int_part(ds: Seq<u16>, weight: int) -> Seq<char> {
    if weight >= 0 {
        let t = strip_zeros(raw_int_part(ds, weight));
        if t.len() == 0 {
            seq!['0']
        } else {
            t
        }
    } else {
        seq!['0']
    }
}

/// The fraction digits as the groups give them, before the display scale
/// is applied: `"0000"` for each group of weight below -1 that is absent,
/// then every group of negative weight.
pub open spec fn raw_frac_part(ds: Seq<u16>, weight: int) -> Seq<char> {
    let start = max(weight + 1, 0);
    if start < ds.len() {
        (if weight < 0 {
            zeros((4 * (-weight - 1)) as nat)
        } else {
            seq![]
        }) + padded_groups(ds, start, ds.len() as int)
    } else {
        seq![]
    }
}

/// The fraction digits cut or padded with zeros to exactly the display scale.
pub open spec fn frac_part(ds: Seq<u16>, weight: int, dscale: int) -> Seq<char> {
    let d = max(dscale, 0);
    let r = raw_frac_part(ds, weight);
    if r.len() > d {
        r.take(d)
    } else {
        r + zeros((d - r.len()) as nat)
    }
}

/// The unsigned text: integer part, then `.` and the fraction when there is one.
pub open spec fn unsigned_text(ds: Seq<u16>, weight: int, dscale: int) -> Seq<char> {
    let f = frac_part(ds, weight, dscale);
    if f.len() > 0 {
        int_part(ds, weight) + seq!['.'] + f
    } else {
        int_part(ds, weight)
    }
}

/// The decimal text of a `numeric` value in wire format, or why there is none.
pub open spec fn numeric_text(raw: Seq<u8>) -> Result<Seq<char>, NumericError> {
    if raw.len() < 8 {
        Err(NumericError::TooShort)
    } else if spec_sign(raw) == 0xC000 {
        Ok(seq!['N', 'a', 'N'])
    } else if spec_ndigits(raw) < 0 || raw.len() < 8 + 2 * spec_ndigits(raw) {
        Err(NumericError::LengthMismatch)
    } else {
        let ds = spec_digits(raw, spec_ndigits(raw) as nat);
        let s = unsigned_text(ds, spec_weight(raw), spec_dscale(raw));
        if spec_sign(raw) == 0x4000 && s != seq!['0'] {
            Ok(seq!['-'] + s)
        } else {
            Ok(s)
        }
    }
}

fn rd_u16(b: &[u8], off: usize) -> (r: u16)
    requires
        off + 1 < b@.len(),
    ensures
        r == be_u16(b@, off as int),
{
    (b[off] as u16) * 256 + (b[off + 1] as u16)
}

fn rd_i16(b: &[u8], off: usize) -> (r: i32)
    requires
        off + 1 < b@.len(),
    ensures
        r == be_i16(b@, off as int),
        -0x8000 <= r < 0x8000,
{
    let u = rd_u16(b, off);
    if u >= 0x8000 {
        u as i32 - 0x10000
    } else {
        u as i32
    }
}

proof fn lemma_strip_zeros(s: Seq<char>, k: int)
    requires
        0 <= k <= s.len(),
        forall|j: int| 0 <= j < k ==> s[j] == '0',
        k == s.len() || s[k] != '0',
    ensures
        strip_zeros(s) == s.skip(k),
    decreases k,
{
    if k > 0 {
        lemma_strip_zeros(s.drop_first(), k - 1);
        assert(s.drop_first().skip(k - 1) =~= s.skip(k));
    } else {
        assert(s.skip(0) =~= s);
    }
}

fn read_digits(raw: &[u8], n: usize) -> (digits: Vec<u16>)
    requires
        8 + 2 * n <= raw@.len(),
    ensures
        digits@ == spec_digits(raw@, n as nat),
{
    let ghost ds = spec_digits(raw@, n as nat);
    let mut digits: Vec<u16> = Vec::new();
    let mut i: usize = 0;
    while i < n
        invariant
            i <= n,
            8 + 2 * n <= raw@.len(),
            raw@.len() == raw.len(),
            ds == spec_digits(raw@, n as nat),
            digits@ =~= ds.take(i as int),
        decreases n - i,
    {
        let d = rd_u16(raw, 8 + i * 2);
        digits.push(d);
        i = i + 1;
    }
    assert(digits@ =~= ds);
    digits
}

/// Appends the characters of `v` to `out`.
fn append_chars(out: &mut Vec<char>, v: &Vec<char>)
    ensures
        final(out)@ == old(out)@ + v@,
{
    let ghost head = out@;
    let mut j: usize = 0;
    while j < v.len()
        invariant
            j <= v.len(),
            out@ =~= head + v@.take(j as int),
        decreases v.len() - j,
    {
        out.push(v[j]);
        j = j + 1;
    }
    assert(v@.take(v@.len() as int) =~= v@);
}

fn integer_text(digits: &Vec<u16>, weight: i32) -> (res: Vec<char>)
    requires
        digits@.len() < 0x8000,
        -0x8000 <= weight < 0x8000,
    ensures
        res@ == int_part(digits@, weight as int),
{
    let ghost ds = digits@;
    let n = digits.len();
    let mut int_text: Vec<char> = Vec::new();
    if weight < 0 {
        int_text.push('0');
        assert(int_text@ =~= int_part(ds, weight as int));
        return int_text;
    }
    let mut int_raw: Vec<char> = Vec::new();
    let int_groups: usize = if (weight as usize) + 1 <= n {
        (weight as usize) + 1
    } else {
        n
    };
    let mut g: usize = 0;
    while g < int_groups
        invariant
            g <= int_groups <= n,
            n == ds.len(),
            digits@ == ds,
            int_raw@ == leading_groups(ds, g as nat),
        decreases int_groups - g,
    {
        if g == 0 {
            push_decimal(&mut int_raw, digits[0] as u128);
        } else {
            push_pad4(&mut int_raw, digits[g]);
        }
        g = g + 1;
    }
    let missing: usize = if (weight as usize) + 1 > n {
        (weight as usize) + 1 - n
    } else {
        0
    };
    push_zeros(&mut int_raw, missing * 4);
    assert(int_raw@ == raw_int_part(ds, weight as int));

    let mut k: usize = 0;
    while k < int_raw.len() && int_raw[k] == '0'
        invariant
            k <= int_raw.len(),
            forall|j: int| 0 <= j < k ==> int_raw@[j] == '0',
        decreases int_raw.len() - k,
    {
        k = k + 1;
    }
    proof {
        lemma_strip_zeros(int_raw@, k as int);
    }
    if k == int_raw.len() {
        int_text.push('0');
    } else {
        let mut j: usize = k;
        while j < int_raw.len()
            invariant
                k <= j <= int_raw.len(),
                int_text@ =~= int_raw@.subrange(k as int, j as int),
            decreases int_raw.len() - j,
        {
            int_text.push(int_raw[j]);
            j = j + 1;
        }
    }
    assert(int_text@ =~= int_part(ds, weight as int));
    int_text
}

fn raw_fraction_text(digits: &Vec<u16>, weight: i32) -> (res: Vec<char>)
    requires
        digits@.len() < 0x8000,
        -0x8000 <= weight < 0x8000,
    ensures
        res@ == raw_frac_part(digits@, weight as int),
{
    let ghost ds = digits@;
    let n = digits.len();
    let mut frac: Vec<char> = Vec::new();
    let frac_start: usize = if weight >= 0 {
        (weight as usize) + 1
    } else {
        0
    };
    if frac_start < n {
        if weight < 0 {
            push_zeros(&mut frac, ((-weight - 1) as usize) * 4);
        }
        let ghost lead = frac@;
        let mut g: usize = frac_start;
        while g < n
            invariant
                frac_start <= g <= n,
                digits@ == ds,
                ds.len() == n,
                frac@ == lead + padded_groups(ds, frac_start as int, g as int),
            decreases n - g,
        {
            push_pad4(&mut frac, digits[g]);
            proof {
                assert(frac@ =~= lead + padded_groups(ds, frac_start as int, g + 1));
            }
            g = g + 1;
        }
    }
    assert(frac@ =~= raw_frac_part(ds, weight as int));
    frac
}

fn fraction_text(digits: &Vec<u16>, weight: i32, dscale: i32) -> (res: Vec<char>)
    requires
        digits@.len() < 0x8000,
        -0x8000 <= weight < 0x8000,
        -0x8000 <= dscale < 0x8000,
    ensures
        res@ == frac_part(digits@, weight as int, dscale as int),
{
    let mut frac = raw_fraction_text(digits, weight);
    let ghost r = frac@;
    let scale: usize = if dscale > 0 {
        dscale as usize
    } else {
        0
    };
    if frac.len() > scale {
        frac.truncate(scale);
        assert(frac@ =~= r.take(scale as int));
    } else {
        let pad = scale - frac.len();
        push_zeros(&mut frac, pad);
    }
    assert(frac@ =~= frac_part(digits@, weight as int, dscale as int));
    frac
}

/// Decodes a PostgreSQL `numeric` value in binary wire format to its decimal
/// text, keeping exactly `dscale` digits after the point.
pub fn numeric_to_string(raw: &[u8]) -> (res: Result<String, NumericError>)
    ensures
        res matches Ok(s) ==> numeric_text(raw@) == Ok::<Seq<char>, NumericError>(s@),
        res matches Err(e) ==> numeric_text(raw@) == Err::<Seq<char>, NumericError>(e),
{
    if raw.len() < 8 {
        return Err(NumericError::TooShort);
    }
    let ndigits = rd_i16(raw, 0);
    let weight = rd_i16(raw, 2);
    let sign = rd_u16(raw, 4);
    let dscale = rd_i16(raw, 6);

    if sign == 0xC000 {
        let mut nan: Vec<char> = Vec::new();
        nan.push('N');
        nan.push('a');
        nan.push('N');
        let s = chars_to_string(&nan);
        assert(s@ =~= seq!['N', 'a', 'N']);
        return Ok(s);
    }
    if ndigits < 0 || raw.len() < 8 + (ndigits as usize) * 2 {
        return Err(NumericError::LengthMismatch);
    }
    let n = ndigits as usize;
    let digits = read_digits(raw, n);
    let ghost ds = digits@;

    let mut body = integer_text(&digits, weight);
    let frac = fraction_text(&digits, weight, dscale);
    if frac.len() > 0 {
        body.push('.');
        append_chars(&mut body, &frac);
    }
    assert(body@ =~= unsigned_text(ds, weight as int, dscale as int));
    let is_zero = body.len() == 1 && body[0] == '0';
    assert(is_zero <==> body@ == seq!['0']) by {
        if body@ == seq!['0'] {
            assert(body@[0] == '0');
        }
        if is_zero {
            assert(body@ =~= seq!['0']);
        }
    }
    if sign == 0x4000 && !is_zero {
        let mut neg: Vec<char> = Vec::new();
        neg.push('-');
        append_chars(&mut neg, &body);
        Ok(chars_to_string(&neg))
    } else {
        Ok(chars_to_string(&body))
    }
}

/// Reads a column as `numeric` text: a column of another type is refused
/// with its type name; a `numeric` column is decoded, or refused with the
/// message of the decoding error.
pub fn numeric_from_sql(is_numeric: bool, column_type: &str, raw: &[u8]) -> (res: Result<
    NumericString,
    String,
>)
    ensures
        !is_numeric ==> (res matches Err(m) && m@ == "类型不是 numeric: "@ + column_type@),
        is_numeric ==> match numeric_text(raw@) {
            Ok(t) => res matches Ok(n) && n.0@ == t,
            Err(e) => res matches Err(m) && m@ == numeric_error_message(e),
        },
{
    if !is_numeric {
        let mut v: Vec<char> = Vec::new();
        push_str(&mut v, "类型不是 numeric: ");
        push_str(&mut v, column_type);
        return Err(chars_to_string(&v));
    }
    match numeric_to_string(raw) {
        Ok(s) => Ok(NumericString(s)),
        Err(e) => Err(e.message()),
    }
}

} // verus!
