//! Descriptor-driven XML marshalling: typed field values, their lexical
//! forms, decimal integer reading and writing, and the serializer that
//! turns a typed value into an XML fragment.

use vstd::prelude::*;
use crate::attributes::is_digit;
use crate::envelope::{ErrorModel, SoapError};
use crate::faults::{decode_xml_content, escape_xml, spec_escape, spec_unescape};
use crate::text::{
    find_char, find_sub_from, first_char_at_or_after, first_occurrence_from, occurs_at, push_char,
    skip_ws, spec_skip_ws, starts_with_at, str_eq,
};
use crate::types::{FieldInfo, FieldKind, FieldModel, KindModel, TypeInfo, TypeModel};

verus! {

/// The decimal digit character of `n`, for `n` between 0 and 9.
pub open spec fn digit_char(n: int) -> char {
    if n == 0 {
        '0'
    } else if n == 1 {
        '1'
    } else if n == 2 {
        '2'
    } else if n == 3 {
        '3'
    } else if n == 4 {
        '4'
    } else if n == 5 {
        '5'
    } else if n == 6 {
        '6'
    } else if n == 7 {
        '7'
    } else if n == 8 {
        '8'
    } else {
        '9'
    }
}

/// The numeric value of a digit character; 10 for any other character.
pub open spec fn digit_val(c: char) -> int {
    if c == '0' {
        0
    } else if c == '1' {
        1
    } else if c == '2' {
        2
    } else if c == '3' {
        3
    } else if c == '4' {
        4
    } else if c == '5' {
        5
    } else if c == '6' {
        6
    } else if c == '7' {
        7
    } else if c == '8' {
        8
    } else if c == '9' {
        9
    } else {
        10
    }
}

/// The decimal digits of a nonnegative number, most significant first.
pub open spec fn spec_udigits(n: nat) -> Seq<char>
    decreases n,
{
    if n < 10 {
        seq![digit_char(n as int)]
    } else {
        spec_udigits((n / 10) as nat).push(digit_char((n % 10) as int))
    }
}

/// The decimal writing of an integer: a minus sign before the digits of
/// its magnitude when negative.
pub open spec fn spec_int_string(i: int) -> Seq<char> {
    if i >= 0 {
        spec_udigits(i as nat)
    } else {
        seq!['-'] + spec_udigits((-i) as nat)
    }
}

/// True when every character of `t` is a decimal digit.
pub open spec fn all_digits(t: Seq<char>) -> bool {
    forall|i: int| 0 <= i < t.len() ==> is_digit(#[trigger] t[i])
}

/// The numeric value of a digit string.
pub open spec fn spec_digits_value(t: Seq<char>) -> int
    decreases t.len(),
{
    if t.len() == 0 {
        0
    } else {
        spec_digits_value(t.drop_last()) * 10 + digit_val(t.last())
    }
}

/// What an integer literal denotes: an optional sign followed by at least
/// one digit; anything else denotes nothing.
pub open spec fn spec_parse_int(t: Seq<char>) -> Option<int> {
    if t.len() == 0 {
        None
    } else if t[0] == '-' {
        if t.len() > 1 && all_digits(t.skip(1)) {
            Some(-spec_digits_value(t.skip(1)))
        } else {
            None
        }
    } else if t[0] == '+' {
        if t.len() > 1 && all_digits(t.skip(1)) {
            Some(spec_digits_value(t.skip(1)))
        } else {
            None
        }
    } else if all_digits(t) {
        Some(spec_digits_value(t))
    } else {
        None
    }
}

/// What a boolean literal denotes: exactly `true` or `false`.
pub open spec fn spec_parse_bool(t: Seq<char>) -> Option<bool> {
    if t == "true"@ {
        Some(true)
    } else if t == "false"@ {
        Some(false)
    } else {
        None
    }
}

/// Converts one digit to its character.
fn digit_to_char(d: u64) -> (r: char)
    requires
        d < 10,
    ensures
        r == digit_char(d as int),
{
    if d == 0 {
        '0'
    } else if d == 1 {
        '1'
    } else if d == 2 {
        '2'
    } else if d == 3 {
        '3'
    } else if d == 4 {
        '4'
    } else if d == 5 {
        '5'
    } else if d == 6 {
        '6'
    } else if d == 7 {
        '7'
    } else if d == 8 {
        '8'
    } else {
        '9'
    }
}

/// Writes a nonnegative number in decimal.
pub fn u64_to_string(x: u64) -> (r: String)
    ensures
        r@ == spec_udigits(x as nat),
    decreases x,
{
    if x < 10 {
        let mut s = String::new();
        push_char(&mut s, digit_to_char(x));
        proof {
            assert(s@ =~= spec_udigits(x as nat));
        }
        s
    } else {
        let mut s = u64_to_string(x / 10);
        push_char(&mut s, digit_to_char(x % 10));
        s
    }
}

/// Writes an integer in decimal, with a minus sign when negative.
pub fn i64_to_string(x: i64) -> (r: String)
    ensures
        r@ == spec_int_string(x as int),
{
    if x >= 0 {
        u64_to_string(x as u64)
    } else {
        let wide: i128 = -(x as i128);
        let mag: u64 = wide as u64;
        let mut s = String::new();
        push_char(&mut s, '-');
        let digits = u64_to_string(mag);
        s.append(digits.as_str());
        proof {
            assert(s@ =~= seq!['-'] + spec_udigits(mag as nat));
        }
        s
    }
}

/// Writes a 32-bit integer in decimal.
pub fn i32_to_string(x: i32) -> (r: String)
    ensures
        r@ == spec_int_string(x as int),
{
    i64_to_string(x as i64)
}

/// The digits of a number carry its value back.
pub proof fn lemma_udigits_value(n: nat)
    ensures
        all_digits(spec_udigits(n)),
        spec_digits_value(spec_udigits(n)) == n,
        spec_udigits(n).len() > 0,
        is_digit(spec_udigits(n)[0]),
    decreases n,
{
    if n < 10 {
        let t = seq![digit_char(n as int)];
        assert(spec_udigits(n) =~= t);
        assert(t.drop_last() =~= Seq::<char>::empty());
        assert(spec_digits_value(Seq::<char>::empty()) == 0);
        assert(t.last() == digit_char(n as int));
        assert(spec_digits_value(t) == 0 * 10 + digit_val(digit_char(n as int)));
    } else {
        lemma_udigits_value((n / 10) as nat);
        let pre = spec_udigits((n / 10) as nat);
        let d = digit_char((n % 10) as int);
        assert(spec_udigits(n) == pre.push(d));
        assert(pre.push(d).drop_last() =~= pre);
        assert(pre.push(d).last() == d);
        assert(spec_digits_value(spec_udigits(n)) == spec_digits_value(pre) * 10 + digit_val(d));
        assert(digit_val(digit_char((n % 10) as int)) == n % 10);
        assert((n / 10) * 10 + n % 10 == n) by {
            vstd::arithmetic::div_mod::lemma_fundamental_div_mod(n as int, 10);
        }
        assert forall|i: int| 0 <= i < pre.push(d).len() implies is_digit(
            #[trigger] pre.push(d)[i],
        ) by {
            if i < pre.len() {
                assert(pre.push(d)[i] == pre[i]);
            }
        }
    }
}

/// Reading back what the integer writer wrote yields the same integer.
pub proof fn lemma_parse_int_roundtrip(i: int)
    ensures
        spec_parse_int(spec_int_string(i)) == Some(i),
{
    if i >= 0 {
        lemma_udigits_value(i as nat);
        let t = spec_udigits(i as nat);
        assert(t[0] != '-' && t[0] != '+');
        assert(spec_parse_int(t) == Some(spec_digits_value(t)));
    } else {
        lemma_udigits_value((-i) as nat);
        let d = spec_udigits((-i) as nat);
        let t = seq!['-'] + d;
        assert(t[0] == '-');
        assert(t.len() > 1);
        assert(t.skip(1) =~= d);
        assert(spec_parse_int(t) == Some(-spec_digits_value(d)));
    }
}

/// One field's value: the typed payload a handler receives or returns.
/// A `VDecimal` carries a floating-point field's text verbatim; a `VRaw`
/// carries a nested or repeated element's XML verbatim; a `VNone` is an
/// absent optional field.
#[derive(Debug)]
pub enum FieldValue {
    VText(String),
    VInt32(i32),
    VInt64(i64),
    VBool(bool),
    VDecimal(String),
    VRaw(String),
    VNone,
}

/// The mathematical model of a field value.
#[verifier::ext_equal]
pub enum ValueModel {
    VText(Seq<char>),
    VInt32(int),
    VInt64(int),
    VBool(bool),
    VDecimal(Seq<char>),
    VRaw(Seq<char>),
    VNone,
}

impl View for FieldValue {
    type V = ValueModel;

    open spec fn view(&self) -> ValueModel {
        match self {
            FieldValue::VText(t) => ValueModel::VText(t@),
            FieldValue::VInt32(i) => ValueModel::VInt32(*i as int),
            FieldValue::VInt64(i) => ValueModel::VInt64(*i as int),
            FieldValue::VBool(b) => ValueModel::VBool(*b),
            FieldValue::VDecimal(t) => ValueModel::VDecimal(t@),
            FieldValue::VRaw(t) => ValueModel::VRaw(t@),
            FieldValue::VNone => ValueModel::VNone,
        }
    }
}

/// The models of a sequence of field values.
pub open spec fn vals_models(s: Seq<FieldValue>) -> Seq<ValueModel> {
    Seq::new(s.len(), |i: int| s[i]@)
}

/// Whether a value fits a kind: each primitive takes its own shape, an
/// optional kind also takes an absent value, and in-range integers only.
pub open spec fn value_matches(v: ValueModel, k: KindModel) -> bool
    decreases k,
{
    match k {
        KindModel::Text => v is VText,
        KindModel::Int32 => v is VInt32 && i32::MIN <= v->VInt32_0 <= i32::MAX,
        KindModel::Int64 => v is VInt64 && i64::MIN <= v->VInt64_0 <= i64::MAX,
        KindModel::Float32 => v is VDecimal,
        KindModel::Float64 => v is VDecimal,
        KindModel::Boolean => v is VBool,
        KindModel::Optional(inner) => v is VNone || value_matches(v, *inner),
        KindModel::ListOf(_) => v is VRaw,
        KindModel::Custom(_) => v is VRaw,
    }
}

/// Whether a value list fits a field list, field for field.
pub open spec fn values_match(vs: Seq<ValueModel>, fields: Seq<FieldModel>) -> bool {
    vs.len() == fields.len() && forall|i: int|
        0 <= i < vs.len() ==> value_matches(#[trigger] vs[i], fields[i].kind)
}

/// The text a present value is written as: text and decimal payloads are
/// entity-escaped, integers and booleans take their literals, and raw
/// payloads stand verbatim.
#[verifier::opaque]
pub open spec fn spec_lexical(v: ValueModel) -> Seq<char> {
    match v {
        ValueModel::VText(t) => spec_escape(t),
        ValueModel::VInt32(i) => spec_int_string(i),
        ValueModel::VInt64(i) => spec_int_string(i),
        ValueModel::VBool(b) => if b {
            "true"@
        } else {
            "false"@
        },
        ValueModel::VDecimal(t) => spec_escape(t),
        ValueModel::VRaw(t) => t,
        ValueModel::VNone => Seq::empty(),
    }
}

/// One field's serialized element: nothing for an absent value, else the
/// wire-named element around the value's text.
pub open spec fn spec_field_xml(f: FieldModel, v: ValueModel) -> Seq<char> {
    if v is VNone {
        Seq::empty()
    } else {
        "<"@ + f.xml_name + ">"@ + spec_lexical(v) + "</"@ + f.xml_name + ">"@
    }
}

/// The serialized elements of all fields, in declaration order.
pub open spec fn spec_fields_xml(fields: Seq<FieldModel>, vs: Seq<ValueModel>) -> Seq<char>
    decreases fields.len(),
{
    if fields.len() == 0 || vs.len() == 0 {
        Seq::empty()
    } else {
        spec_field_xml(fields[0], vs[0]) + spec_fields_xml(fields.drop_first(), vs.drop_first())
    }
}

/// A serialized value: the type's named element around its fields'
/// elements in declaration order.
pub open spec fn spec_serialize(t: TypeModel, vs: Seq<ValueModel>) -> Seq<char> {
    "<"@ + t.name + ">"@ + spec_fields_xml(t.fields, vs) + "</"@ + t.name + ">"@
}

/// Extending both prefixes by one appends that field's element.
pub proof fn lemma_fields_xml_take_step(fields: Seq<FieldModel>, vs: Seq<ValueModel>, i: int)
    requires
        0 <= i < fields.len(),
        fields.len() == vs.len(),
    ensures
        spec_fields_xml(fields.take(i + 1), vs.take(i + 1)) == spec_fields_xml(
            fields.take(i),
            vs.take(i),
        ) + spec_field_xml(fields[i], vs[i]),
    decreases i,
{
    if i == 0 {
        assert(fields.take(1) =~= seq![fields[0]]);
        assert(vs.take(1) =~= seq![vs[0]]);
        assert(fields.take(1).drop_first() =~= Seq::<FieldModel>::empty());
        assert(vs.take(1).drop_first() =~= Seq::<ValueModel>::empty());
        assert(fields.take(0) =~= Seq::<FieldModel>::empty());
        assert(vs.take(0) =~= Seq::<ValueModel>::empty());
        assert(spec_fields_xml(Seq::<FieldModel>::empty(), Seq::<ValueModel>::empty())
            == Seq::<char>::empty());
        assert(fields.take(1)[0] == fields[0]);
        assert(vs.take(1)[0] == vs[0]);
        assert(spec_fields_xml(fields.take(1), vs.take(1)) == spec_field_xml(fields[0], vs[0])
            + Seq::<char>::empty());
        assert(spec_fields_xml(fields.take(1), vs.take(1)) =~= spec_fields_xml(
            fields.take(0),
            vs.take(0),
        ) + spec_field_xml(fields[0], vs[0]));
    } else {
        lemma_fields_xml_take_step(fields.drop_first(), vs.drop_first(), i - 1);
        assert(fields.take(i + 1).drop_first() =~= fields.drop_first().take(i));
        assert(vs.take(i + 1).drop_first() =~= vs.drop_first().take(i));
        assert(fields.take(i).drop_first() =~= fields.drop_first().take(i - 1));
        assert(vs.take(i).drop_first() =~= vs.drop_first().take(i - 1));
        assert(fields.drop_first()[i - 1] == fields[i]);
        assert(vs.drop_first()[i - 1] == vs[i]);
        let h = spec_field_xml(fields[0], vs[0]);
        let a = spec_fields_xml(fields.drop_first().take(i - 1), vs.drop_first().take(i - 1));
        let b = spec_field_xml(fields[i], vs[i]);
        assert(h + (a + b) =~= (h + a) + b);
    }
}

/// Decides whether a value fits a kind.
pub fn value_fits(v: &FieldValue, k: &FieldKind) -> (r: bool)
    ensures
        r == value_matches(v@, k@),
    decreases *k,
{
    match k {
        FieldKind::Text => matches!(v, FieldValue::VText(_)),
        FieldKind::Int32 => matches!(v, FieldValue::VInt32(_)),
        FieldKind::Int64 => matches!(v, FieldValue::VInt64(_)),
        FieldKind::Float32 => matches!(v, FieldValue::VDecimal(_)),
        FieldKind::Float64 => matches!(v, FieldValue::VDecimal(_)),
        FieldKind::Boolean => matches!(v, FieldValue::VBool(_)),
        FieldKind::Optional(inner) => matches!(v, FieldValue::VNone) || value_fits(v, inner),
        FieldKind::ListOf(_) => matches!(v, FieldValue::VRaw(_)),
        FieldKind::Custom(_) => matches!(v, FieldValue::VRaw(_)),
    }
}

/// Writes a present value's text.
fn lexical_of(v: &FieldValue) -> (r: String)
    ensures
        r@ == spec_lexical(v@),
{
    proof {
        reveal(spec_lexical);
    }
    match v {
        FieldValue::VText(t) => escape_xml(t.as_str()),
        FieldValue::VInt32(i) => i32_to_string(*i),
        FieldValue::VInt64(i) => i64_to_string(*i),
        FieldValue::VBool(b) => {
            if *b {
                String::from_str("true")
            } else {
                String::from_str("false")
            }
        },
        FieldValue::VDecimal(t) => escape_xml(t.as_str()),
        FieldValue::VRaw(t) => t.clone(),
        FieldValue::VNone => String::new(),
    }
}

/// Serializes a typed value into the XML fragment of its type: the type's
/// element wrapping each present field's element, in declaration order.
/// A value list that does not fit the type, field for field, is rejected.
pub fn serialize_to_xml(info: &TypeInfo, values: &Vec<FieldValue>) -> (r: Result<
    String,
    crate::envelope::SoapError,
>)
    ensures
        values_match(vals_models(values@), info@.fields) ==> r is Ok && r->Ok_0@ == spec_serialize(
            info@,
            vals_models(values@),
        ),
        !values_match(vals_models(values@), info@.fields) ==> r is Err && r->Err_0@
            == crate::envelope::ErrorModel::SerializationError("Value does not match type"@),
{
    let n = info.fields.len();
    if values.len() != n {
        return Err(
            crate::envelope::SoapError::SerializationError(
                String::from_str("Value does not match type"),
            ),
        );
    }
    let mut i: usize = 0;
    while i < n
        invariant
            n == info.fields@.len(),
            n == values@.len(),
            0 <= i <= n,
            forall|j: int|
                0 <= j < i ==> value_matches(#[trigger] vals_models(values@)[j], info@.fields[j].kind),
        decreases n - i,
    {
        if !value_fits(&values[i], &info.fields[i].kind) {
            assert(!value_matches(vals_models(values@)[i as int], info@.fields[i as int].kind));
            return Err(
                crate::envelope::SoapError::SerializationError(
                    String::from_str("Value does not match type"),
                ),
            );
        }
        i = i + 1;
    }
    let mut out = String::from_str("<");
    out.append(info.name.as_str());
    out.append(">");
    let ghost head = out@;
    let ghost fms = info@.fields;
    let ghost vms = vals_models(values@);
    proof {
        assert(fms.take(0) =~= Seq::<FieldModel>::empty());
        assert(head + spec_fields_xml(fms.take(0), vms.take(0)) =~= head);
    }
    let mut i: usize = 0;
    while i < n
        invariant
            n == info.fields@.len(),
            n == values@.len(),
            0 <= i <= n,
            fms == info@.fields,
            vms == vals_models(values@),
            fms.len() == n,
            vms.len() == n,
            out@ == head + spec_fields_xml(fms.take(i as int), vms.take(i as int)),
        decreases n - i,
    {
        proof {
            lemma_fields_xml_take_step(fms, vms, i as int);
        }
        match &values[i] {
            FieldValue::VNone => {
                proof {
                    assert(vms[i as int] is VNone);
                    assert(out@ =~= head + spec_fields_xml(fms.take(i + 1), vms.take(i + 1)));
                }
            },
            _ => {
                out.append("<");
                out.append(info.fields[i].xml_name.as_str());
                out.append(">");
                let lex = lexical_of(&values[i]);
                out.append(lex.as_str());
                out.append("</");
                out.append(info.fields[i].xml_name.as_str());
                out.append(">");
                proof {
                    assert(!(vms[i as int] is VNone));
                    assert(out@ =~= head + spec_fields_xml(fms.take(i + 1), vms.take(i + 1)));
                }
            },
        }
        i = i + 1;
    }
    out.append("</");
    out.append(info.name.as_str());
    out.append(">");
    proof {
        assert(fms.take(n as int) =~= fms);
        assert(vms.take(n as int) =~= vms);
        assert(out@ =~= spec_serialize(info@, vms));
    }
    Ok(out)
}

/// Digit strings denote nonnegative numbers.
pub proof fn lemma_digits_value_nonneg(t: Seq<char>)
    ensures
        spec_digits_value(t) >= 0,
    decreases t.len(),
{
    if t.len() > 0 {
        lemma_digits_value_nonneg(t.drop_last());
    }
}

/// A digit string's prefix denotes no more than the whole string.
pub proof fn lemma_digits_prefix_le(t: Seq<char>, k: int)
    requires
        0 <= k <= t.len(),
    ensures
        spec_digits_value(t.take(k)) <= spec_digits_value(t),
    decreases t.len(),
{
    if k < t.len() {
        assert(t.take(k) =~= t.drop_last().take(k));
        lemma_digits_prefix_le(t.drop_last(), k);
        lemma_digits_value_nonneg(t.drop_last());
        assert(spec_digits_value(t) == spec_digits_value(t.drop_last()) * 10 + digit_val(t.last()));
        assert(digit_val(t.last()) >= 0);
        assert(spec_digits_value(t.drop_last()) * 10 >= spec_digits_value(t.drop_last()));
    } else {
        assert(t.take(k) =~= t);
    }
}

/// Reads the digits of `s` from `from` to the end into a number; nothing
/// when a non-digit stands there, the digits run out before `from`, or
/// the number does not fit.
fn parse_digits_u64(s: &str, from: usize) -> (r: Option<u64>)
    requires
        from <= s@.len(),
    ensures
        match r {
            Some(v) => from < s@.len() && all_digits(s@.skip(from as int)) && v as int
                == spec_digits_value(s@.skip(from as int)),
            None => !(from < s@.len() && all_digits(s@.skip(from as int))) || spec_digits_value(
                s@.skip(from as int),
            ) > u64::MAX,
        },
{
    let n = s.unicode_len();
    if from >= n {
        return None;
    }
    let ghost t = s@.skip(from as int);
    let cap: u64 = u64::MAX / 10;
    let rem: u64 = u64::MAX % 10;
    let mut acc: u64 = 0;
    let mut k: usize = from;
    proof {
        assert(t.take(0) =~= Seq::<char>::empty());
    }
    while k < n
        invariant
            n == s@.len(),
            t == s@.skip(from as int),
            from <= k <= n,
            cap == u64::MAX / 10,
            rem == u64::MAX % 10,
            forall|m: int| 0 <= m < k - from ==> is_digit(#[trigger] t[m]),
            acc as int == spec_digits_value(t.take(k - from)),
        decreases n - k,
    {
        let c = s.get_char(k);
        let d: u64 = if c == '0' {
            0
        } else if c == '1' {
            1
        } else if c == '2' {
            2
        } else if c == '3' {
            3
        } else if c == '4' {
            4
        } else if c == '5' {
            5
        } else if c == '6' {
            6
        } else if c == '7' {
            7
        } else if c == '8' {
            8
        } else if c == '9' {
            9
        } else {
            assert(!is_digit(t[k - from]));
            return None;
        };
        assert(d as int == digit_val(c));
        if acc > cap || (acc == cap && d > rem) {
            proof {
                assert(t.take(k - from + 1).drop_last() =~= t.take(k - from));
                assert(t.take(k - from + 1).last() == t[k - from]);
                assert(spec_digits_value(t.take(k - from + 1)) == acc as int * 10 + d);
                assert(acc as int * 10 + d > u64::MAX);
                lemma_digits_prefix_le(t, k - from + 1);
            }
            return None;
        }
        proof {
            assert(t.take(k - from + 1).drop_last() =~= t.take(k - from));
            assert(t.take(k - from + 1).last() == t[k - from]);
        }
        acc = acc * 10 + d;
        k = k + 1;
    }
    proof {
        assert(t.take(n - from) =~= t);
    }
    Some(acc)
}

/// Reads a 64-bit integer literal: an optional sign and digits denoting a
/// value the type can hold; anything else reads as nothing.
pub fn parse_i64_str(s: &str) -> (r: Option<i64>)
    ensures
        match r {
            Some(v) => spec_parse_int(s@) == Some(v as int),
            None => spec_parse_int(s@) is None || !(i64::MIN <= spec_parse_int(s@)->0 <= i64::MAX),
        },
{
    let n = s.unicode_len();
    if n == 0 {
        return None;
    }
    let c0 = s.get_char(0);
    if c0 == '-' {
        match parse_digits_u64(s, 1) {
            None => {
                proof {
                    if 1 < s@.len() && all_digits(s@.skip(1)) {
                        lemma_digits_value_nonneg(s@.skip(1));
                    }
                }
                None
            },
            Some(mag) => {
                if mag > 9223372036854775808u64 {
                    return None;
                }
                if mag == 9223372036854775808u64 {
                    return Some(i64::MIN);
                }
                Some(-(mag as i64))
            },
        }
    } else if c0 == '+' {
        match parse_digits_u64(s, 1) {
            None => None,
            Some(v) => {
                if v > i64::MAX as u64 {
                    return None;
                }
                Some(v as i64)
            },
        }
    } else {
        match parse_digits_u64(s, 0) {
            None => {
                proof {
                    assert(s@.skip(0) =~= s@);
                }
                None
            },
            Some(v) => {
                proof {
                    assert(s@.skip(0) =~= s@);
                    assert(s@[0] != '-' && s@[0] != '+');
                }
                if v > i64::MAX as u64 {
                    return None;
                }
                Some(v as i64)
            },
        }
    }
}

/// Reads a 32-bit integer literal, as `parse_i64_str` does, rejecting
/// values outside the 32-bit range.
pub fn parse_i32_str(s: &str) -> (r: Option<i32>)
    ensures
        match r {
            Some(v) => spec_parse_int(s@) == Some(v as int),
            None => spec_parse_int(s@) is None || !(i32::MIN <= spec_parse_int(s@)->0 <= i32::MAX),
        },
{
    match parse_i64_str(s) {
        None => None,
        Some(v) => {
            if v < -2147483648i64 || v > 2147483647i64 {
                return None;
            }
            Some(v as i32)
        },
    }
}

/// What a field's element content denotes under a kind: text and decimal
/// content is entity-decoded, integers and booleans must read as their
/// literals, nested or repeated content stands verbatim, and an optional
/// kind reads as its inner kind.
#[verifier::opaque]
pub open spec fn spec_field_value(k: KindModel, content: Seq<char>) -> Option<ValueModel>
    decreases k,
{
    match k {
        KindModel::Text => Some(ValueModel::VText(spec_unescape(content))),
        KindModel::Int32 => match spec_parse_int(spec_unescape(content)) {
            Some(v) => if i32::MIN <= v <= i32::MAX {
                Some(ValueModel::VInt32(v))
            } else {
                None
            },
            None => None,
        },
        KindModel::Int64 => match spec_parse_int(spec_unescape(content)) {
            Some(v) => if i64::MIN <= v <= i64::MAX {
                Some(ValueModel::VInt64(v))
            } else {
                None
            },
            None => None,
        },
        KindModel::Float32 => Some(ValueModel::VDecimal(spec_unescape(content))),
        KindModel::Float64 => Some(ValueModel::VDecimal(spec_unescape(content))),
        KindModel::Boolean => match spec_parse_bool(spec_unescape(content)) {
            Some(b) => Some(ValueModel::VBool(b)),
            None => None,
        },
        KindModel::Optional(inner) => spec_field_value(*inner, content),
        KindModel::ListOf(_) => Some(ValueModel::VRaw(content)),
        KindModel::Custom(_) => Some(ValueModel::VRaw(content)),
    }
}

/// Reads one field's value out of its element content.
fn field_value_of(k: &FieldKind, content: &str) -> (r: Option<FieldValue>)
    ensures
        match r {
            Some(v) => spec_field_value(k@, content@) == Some(v@),
            None => spec_field_value(k@, content@) is None,
        },
    decreases *k,
{
    proof {
        reveal(spec_field_value);
    }
    match k {
        FieldKind::Text => Some(FieldValue::VText(decode_xml_content(content))),
        FieldKind::Int32 => {
            let dec = decode_xml_content(content);
            match parse_i32_str(dec.as_str()) {
                Some(v) => Some(FieldValue::VInt32(v)),
                None => None,
            }
        },
        FieldKind::Int64 => {
            let dec = decode_xml_content(content);
            match parse_i64_str(dec.as_str()) {
                Some(v) => Some(FieldValue::VInt64(v)),
                None => None,
            }
        },
        FieldKind::Float32 => Some(FieldValue::VDecimal(decode_xml_content(content))),
        FieldKind::Float64 => Some(FieldValue::VDecimal(decode_xml_content(content))),
        FieldKind::Boolean => {
            let dec = decode_xml_content(content);
            if str_eq(dec.as_str(), "true") {
                Some(FieldValue::VBool(true))
            } else if str_eq(dec.as_str(), "false") {
                Some(FieldValue::VBool(false))
            } else {
                None
            }
        },
        FieldKind::Optional(inner) => field_value_of(inner, content),
        FieldKind::ListOf(_) => Some(FieldValue::VRaw(String::from_str(content))),
        FieldKind::Custom(_) => Some(FieldValue::VRaw(String::from_str(content))),
    }
}

/// What reading one field of a fragment from position `pos` yields: after
/// any whitespace, either the field's wire-named element, whose content
/// must denote a value of the field's kind — the read goes on past its
/// closing tag — or, for an optional field only, nothing.
#[verifier::opaque]
pub open spec fn spec_read_field_one(x: Seq<char>, f: FieldModel, pos: int) -> Result<
    (ValueModel, int),
    Seq<char>,
> {
    let p2 = spec_skip_ws(x, pos);
    let open = "<"@ + f.xml_name + ">"@;
    if occurs_at(x, open, p2) {
        let cs = p2 + open.len();
        let close = "</"@ + f.xml_name + ">"@;
        match first_occurrence_from(x, close, cs) {
            None => Err("Missing closing tag: "@ + f.xml_name),
            Some(e) => match spec_field_value(f.kind, x.subrange(cs, e)) {
                None => Err("Invalid value for field: "@ + f.xml_name),
                Some(v) => Ok((v, e + close.len())),
            },
        }
    } else if !crate::types::spec_field_required(f.kind) {
        Ok((ValueModel::VNone, p2))
    } else {
        Err("Missing field: "@ + f.xml_name)
    }
}

/// What reading the fields of a fragment from position `pos` yields: each
/// field in declaration order, as `spec_read_field_one` reads it.
pub open spec fn spec_read_fields(
    x: Seq<char>,
    fields: Seq<FieldModel>,
    pos: int,
) -> Result<Seq<ValueModel>, Seq<char>>
    decreases fields.len(),
{
    if fields.len() == 0 {
        Ok(Seq::empty())
    } else {
        match spec_read_field_one(x, fields[0], pos) {
            Err(m) => Err(m),
            Ok((v, p)) => match spec_read_fields(x, fields.drop_first(), p) {
                Err(m) => Err(m),
                Ok(rest) => Ok(seq![v] + rest),
            },
        }
    }
}

/// Reads one field, as `spec_read_field_one` says.
fn read_field(xml: &str, field: &FieldInfo, pos: usize) -> (r: Result<
    (FieldValue, usize),
    SoapError,
>)
    requires
        pos <= xml@.len(),
    ensures
        match r {
            Ok((v, newpos)) => newpos <= xml@.len() && spec_read_field_one(
                xml@,
                field@,
                pos as int,
            ) == Ok::<_, Seq<char>>((v@, newpos as int)),
            Err(e) => e@ is ParseError && spec_read_field_one(xml@, field@, pos as int) == Err::<
                (ValueModel, int),
                _,
            >(e@->ParseError_0),
        },
{
    proof {
        reveal(spec_read_field_one);
    }
    let n = xml.unicode_len();
    let p2 = skip_ws(xml, pos);
    let mut open = String::from_str("<");
    open.append(field.xml_name.as_str());
    open.append(">");
    proof {
        assert(open@ == "<"@ + field@.xml_name + ">"@);
    }
    let ol = open.unicode_len();
    let matched: bool = if n - p2 >= ol {
        starts_with_at(xml, open.as_str(), p2)
    } else {
        false
    };
    proof {
        assert(matched == occurs_at(xml@, open@, p2 as int));
    }
    if matched {
        let cs = p2 + ol;
        let mut close = String::from_str("</");
        close.append(field.xml_name.as_str());
        close.append(">");
        proof {
            assert(close@ == "</"@ + field@.xml_name + ">"@);
        }
        let cl = close.unicode_len();
        let e = match find_sub_from(xml, close.as_str(), cs) {
            Some(e) => e,
            None => {
                let mut msg = String::from_str("Missing closing tag: ");
                msg.append(field.xml_name.as_str());
                return Err(SoapError::ParseError(msg));
            },
        };
        let content = xml.substring_char(cs, e);
        let v = match field_value_of(&field.kind, content) {
            Some(v) => v,
            None => {
                let mut msg = String::from_str("Invalid value for field: ");
                msg.append(field.xml_name.as_str());
                return Err(SoapError::ParseError(msg));
            },
        };
        Ok((v, e + cl))
    } else {
        if field.optional() {
            Ok((FieldValue::VNone, p2))
        } else {
            let mut msg = String::from_str("Missing field: ");
            msg.append(field.xml_name.as_str());
            return Err(SoapError::ParseError(msg));
        }
    }
}

/// What deserializing a fragment into a type's values yields: the root
/// element's tag is passed over (whatever its name), then the fields are
/// read in declaration order; text after the last field is ignored.
#[verifier::opaque]
pub open spec fn spec_deserialize(t: TypeModel, x: Seq<char>) -> Result<Seq<ValueModel>, Seq<char>> {
    let a = spec_skip_ws(x, 0);
    if a >= x.len() || x[a] != '<' {
        Err("No XML element found"@)
    } else {
        match first_char_at_or_after(x, a, '>') {
            None => Err("Invalid XML: no closing bracket found"@),
            Some(g) => spec_read_fields(x, t.fields, g + 1),
        }
    }
}

/// A value that is present and not raw: the shapes whose wire text is
/// free of markup and reads back to the value itself.
pub open spec fn value_simple(v: ValueModel) -> bool {
    !(v is VNone) && !(v is VRaw)
}

/// No value is a raw XML payload.
pub open spec fn values_not_raw(vs: Seq<ValueModel>) -> bool {
    forall|i: int| 0 <= i < vs.len() ==> !((#[trigger] vs[i]) is VRaw)
}

/// No two fields share a wire name.
pub open spec fn distinct_wire_names(fields: Seq<FieldModel>) -> bool {
    forall|i: int, j: int|
        0 <= i < j < fields.len() ==> fields[i].xml_name != fields[j].xml_name
}

/// Every wire name of the fields is a plain identifier.
pub open spec fn wire_names_identifiers(fields: Seq<FieldModel>) -> bool {
    forall|i: int|
        0 <= i < fields.len() ==> crate::attributes::spec_valid_identifier(
            (#[trigger] fields[i]).xml_name,
        )
}

/// The index of the first present value, or -1 when every value is
/// absent.
pub open spec fn spec_first_present(vs: Seq<ValueModel>) -> int
    decreases vs.len(),
{
    if vs.len() == 0 {
        -1
    } else if !(vs[0] is VNone) {
        0
    } else {
        let r = spec_first_present(vs.drop_first());
        if r == -1 {
            -1
        } else {
            r + 1
        }
    }
}

/// The serialized fields are empty exactly when every value is absent;
/// otherwise they begin with the first present field's opening tag.
pub proof fn lemma_fields_xml_structure(fields: Seq<FieldModel>, vs: Seq<ValueModel>)
    requires
        fields.len() == vs.len(),
    ensures
        spec_first_present(vs) >= -1,
        spec_first_present(vs) < 0 ==> spec_fields_xml(fields, vs) == Seq::<char>::empty(),
        spec_first_present(vs) >= 0 ==> ({
            let j = spec_first_present(vs);
            let name = fields[j].xml_name;
            &&& 0 <= j < fields.len()
            &&& !(vs[j] is VNone)
            &&& spec_fields_xml(fields, vs).len() >= name.len() + 2
            &&& spec_fields_xml(fields, vs).subrange(0, name.len() as int + 2) == "<"@ + name
                + ">"@
        }),
    decreases fields.len(),
{
    reveal_strlit("<");
    reveal_strlit(">");
    reveal_strlit("</");
    if fields.len() > 0 {
        let body = spec_fields_xml(fields, vs);
        let fx = spec_field_xml(fields[0], vs[0]);
        let rest = spec_fields_xml(fields.drop_first(), vs.drop_first());
        assert(body == fx + rest);
        if !(vs[0] is VNone) {
            let name = fields[0].xml_name;
            let open = "<"@ + name + ">"@;
            let close = "</"@ + name + ">"@;
            assert(fx =~= open + spec_lexical(vs[0]) + close);
            assert(body.subrange(0, name.len() as int + 2) =~= open);
        } else {
            assert(fx =~= Seq::<char>::empty());
            assert(body =~= rest);
            lemma_fields_xml_structure(fields.drop_first(), vs.drop_first());
            let r = spec_first_present(vs.drop_first());
            assert(r >= -1);
            if r >= 0 {
                assert(spec_first_present(vs) == r + 1);
                assert(fields.drop_first()[r] == fields[r + 1]);
                assert(vs.drop_first()[r] == vs[r + 1]);
                let name = fields[r + 1].xml_name;
                assert(rest.subrange(0, name.len() as int + 2) == "<"@ + name + ">"@);
                assert(body.subrange(0, name.len() as int + 2) =~= rest.subrange(
                    0,
                    name.len() as int + 2,
                ));
            } else {
                assert(body =~= Seq::<char>::empty());
            }
        }
    }
}

/// A text that carries one identifier's opening tag at `pos` cannot
/// carry a different identifier's opening tag there.
proof fn lemma_open_tag_mismatch(x: Seq<char>, a: Seq<char>, b: Seq<char>, pos: int)
    requires
        a != b,
        crate::attributes::spec_valid_identifier(a),
        crate::attributes::spec_valid_identifier(b),
        0 <= pos,
        pos + b.len() + 2 <= x.len(),
        x.subrange(pos, pos + b.len() + 2) == "<"@ + b + ">"@,
    ensures
        !occurs_at(x, "<"@ + a + ">"@, pos),
{
    reveal_strlit("<");
    reveal_strlit(">");
    let oa = "<"@ + a + ">"@;
    let ob = "<"@ + b + ">"@;
    assert forall|k: int| 0 <= k < ob.len() implies x[pos + k] == ob[k] by {
        assert(x.subrange(pos, pos + ob.len() as int)[k] == x[pos + k]);
    }
    if occurs_at(x, oa, pos) {
        assert forall|k: int| 0 <= k < oa.len() implies x[pos + k] == oa[k] by {
            assert(x.subrange(pos, pos + oa.len() as int)[k] == x[pos + k]);
        }
        if a.len() == b.len() {
            assert forall|k: int| 0 <= k < a.len() implies a[k] == b[k] by {
                assert(oa[1 + k] == a[k]);
                assert(ob[1 + k] == b[k]);
                assert(x[pos + 1 + k] == oa[1 + k]);
                assert(x[pos + 1 + k] == ob[1 + k]);
            }
            assert(a =~= b);
        } else if a.len() < b.len() {
            assert(oa[1 + a.len() as int] == '>');
            assert(ob[1 + a.len() as int] == b[a.len() as int]);
            assert(x[pos + 1 + a.len()] == oa[1 + a.len() as int]);
            assert(x[pos + 1 + a.len()] == ob[1 + a.len() as int]);
            assert(crate::attributes::is_ident_char(b[a.len() as int]));
        } else {
            assert(ob[1 + b.len() as int] == '>');
            assert(oa[1 + b.len() as int] == a[b.len() as int]);
            assert(x[pos + 1 + b.len()] == oa[1 + b.len() as int]);
            assert(x[pos + 1 + b.len()] == ob[1 + b.len() as int]);
            assert(crate::attributes::is_ident_char(a[b.len() as int]));
        }
    }
}

/// What may stand right after the fields for the read to end cleanly:
/// nothing at all, something that is no element, or a closing tag.
pub open spec fn benign_tail(x: Seq<char>, pe: int) -> bool {
    pe >= x.len() || x[pe] != '<' || (pe + 1 < x.len() && x[pe + 1] == '/')
}

/// The wire text of a simple value holds no markup character at all.
pub proof fn lemma_lexical_no_markup(v: ValueModel)
    requires
        value_simple(v),
    ensures
        forall|i: int|
            0 <= i < spec_lexical(v).len() ==> #[trigger] spec_lexical(v)[i] != '<' && spec_lexical(
                v,
            )[i] != '>' && spec_lexical(v)[i] != '"',
{
    reveal(spec_lexical);
    match v {
        ValueModel::VText(t) => {
            crate::faults::lemma_escape_no_markup(t);
        },
        ValueModel::VDecimal(t) => {
            crate::faults::lemma_escape_no_markup(t);
        },
        ValueModel::VInt32(i) => {
            lemma_int_string_chars(i);
        },
        ValueModel::VInt64(i) => {
            lemma_int_string_chars(i);
        },
        ValueModel::VBool(b) => {
            reveal_strlit("true");
            reveal_strlit("false");
            if b {
                assert(forall|i: int|
                    0 <= i < "true"@.len() ==> #[trigger] "true"@[i] != '<' && "true"@[i] != '>'
                        && "true"@[i] != '"');
            } else {
                assert(forall|i: int|
                    0 <= i < "false"@.len() ==> #[trigger] "false"@[i] != '<' && "false"@[i] != '>'
                        && "false"@[i] != '"');
            }
        },
        _ => {},
    }
}

/// The decimal writing of an integer holds only digits after a possible
/// leading minus sign.
pub proof fn lemma_int_string_chars(i: int)
    ensures
        forall|k: int|
            0 <= k < spec_int_string(i).len() ==> is_digit(#[trigger] spec_int_string(i)[k])
                || spec_int_string(i)[k] == '-',
{
    if i >= 0 {
        lemma_udigits_value(i as nat);
    } else {
        lemma_udigits_value((-i) as nat);
        let d = spec_udigits((-i) as nat);
        let t = seq!['-'] + d;
        assert forall|k: int| 0 <= k < t.len() implies is_digit(#[trigger] t[k]) || t[k] == '-' by {
            if k >= 1 {
                assert(t[k] == d[k - 1]);
            }
        }
    }
}

/// The wire text of a simple value reads back to the value under its
/// kind: decoding, and parsing where the kind asks for it, recover the
/// value that was written.
pub proof fn lemma_field_value_roundtrip(k: KindModel, v: ValueModel)
    requires
        value_matches(v, k),
        value_simple(v),
    ensures
        spec_field_value(k, spec_lexical(v)) == Some(v),
    decreases k,
{
    reveal(spec_lexical);
    reveal(spec_field_value);
    match k {
        KindModel::Text => {
            let t = v->VText_0;
            crate::faults::lemma_unescape_escape(t);
        },
        KindModel::Int32 => {
            let n = v->VInt32_0;
            lemma_int_no_amp_and_parse(n);
        },
        KindModel::Int64 => {
            let n = v->VInt64_0;
            lemma_int_no_amp_and_parse(n);
        },
        KindModel::Float32 => {
            let t = v->VDecimal_0;
            crate::faults::lemma_unescape_escape(t);
        },
        KindModel::Float64 => {
            let t = v->VDecimal_0;
            crate::faults::lemma_unescape_escape(t);
        },
        KindModel::Boolean => {
            let b = v->VBool_0;
            reveal_strlit("true");
            reveal_strlit("false");
            if b {
                assert(forall|i: int| 0 <= i < "true"@.len() ==> #[trigger] "true"@[i] != '&');
                crate::faults::lemma_unescape_no_amp("true"@);
            } else {
                assert(forall|i: int| 0 <= i < "false"@.len() ==> #[trigger] "false"@[i] != '&');
                crate::faults::lemma_unescape_no_amp("false"@);
            }
            assert("true"@ != "false"@) by {
                assert("true"@.len() == 4);
                assert("false"@.len() == 5);
            }
        },
        KindModel::Optional(inner) => {
            lemma_field_value_roundtrip(*inner, v);
        },
        _ => {},
    }
}

/// The decimal writing of an integer holds no ampersand, and parsing it
/// under an integer kind recovers the integer.
proof fn lemma_int_no_amp_and_parse(n: int)
    ensures
        spec_unescape(spec_lexical(ValueModel::VInt32(n))) == spec_int_string(n),
        spec_unescape(spec_lexical(ValueModel::VInt64(n))) == spec_int_string(n),
        spec_parse_int(spec_int_string(n)) == Some(n),
{
    reveal(spec_lexical);
    lemma_int_string_chars(n);
    assert(forall|k: int|
        0 <= k < spec_int_string(n).len() ==> #[trigger] spec_int_string(n)[k] != '&');
    crate::faults::lemma_unescape_no_amp(spec_int_string(n));
    lemma_parse_int_roundtrip(n);
}

/// Reading one field back from a text that carries its serialized
/// element — after any whitespace at `pos` — recovers the value that was
/// written, and stops right after its closing tag.
#[verifier::rlimit(100)]
proof fn lemma_read_one_roundtrip(x: Seq<char>, f: FieldModel, v: ValueModel, pos: int)
    requires
        value_matches(v, f.kind),
        value_simple(v),
        0 <= pos <= x.len(),
        spec_skip_ws(x, pos) + spec_field_xml(f, v).len() <= x.len(),
        x.subrange(
            spec_skip_ws(x, pos),
            spec_skip_ws(x, pos) + spec_field_xml(f, v).len(),
        ) == spec_field_xml(f, v),
    ensures
        spec_read_field_one(x, f, pos) == Ok::<_, Seq<char>>(
            (v, spec_skip_ws(x, pos) + spec_field_xml(f, v).len()),
        ),
{
    reveal_strlit("<");
    reveal_strlit(">");
    reveal_strlit("</");
    crate::text::lemma_skip_ws_bounds(x, pos);
    let w = spec_skip_ws(x, pos);
    let fx = spec_field_xml(f, v);
    let open = "<"@ + f.xml_name + ">"@;
    let lex = spec_lexical(v);
    let close = "</"@ + f.xml_name + ">"@;
    assert(fx =~= open + lex + close);
    assert(fx.len() == open.len() + lex.len() + close.len());
    assert forall|idx: int| 0 <= idx < fx.len() implies x[w + idx] == fx[idx] by {
        assert(x.subrange(w, w + fx.len())[idx] == x[w + idx]);
    }
    assert forall|idx: int| 0 <= idx < open.len() implies x[w + idx] == open[idx] by {
        assert(fx[idx] == open[idx]);
    }
    assert(x.subrange(w, w + open.len()) =~= open);
    assert(occurs_at(x, open, w));
    let cs = w + open.len();
    let e0 = cs + lex.len();
    // The first closing tag after the content is the field's own: the
    // content holds no `<`, and every occurrence begins with one.
    assert(close[0] == '<');
    lemma_lexical_no_markup(v);
    assert forall|idx: int| 0 <= idx < close.len() implies x[e0 + idx] == close[idx] by {
        assert(fx[open.len() + lex.len() + idx] == close[idx]);
        assert(x[w + (open.len() + lex.len() + idx)] == fx[open.len() + lex.len() + idx]);
    }
    assert(x.subrange(e0, e0 + close.len()) =~= close);
    assert(occurs_at(x, close, e0));
    assert forall|h: int| cs <= h < e0 implies !occurs_at(x, close, h) by {
        if occurs_at(x, close, h) {
            assert(x.subrange(h, h + close.len())[0] == x[h]);
            assert(x[h] == close[0]);
            assert(fx[h - w] == lex[h - w - open.len()]);
            assert(x[h] == fx[h - w]);
        }
    }
    crate::text::lemma_first_occurrence_from_is_least(x, close, cs, e0);
    assert forall|idx: int| 0 <= idx < lex.len() implies x[cs + idx] == lex[idx] by {
        assert(fx[open.len() + idx] == lex[idx]);
        assert(x[w + (open.len() + idx)] == fx[open.len() + idx]);
    }
    assert(x.subrange(cs, e0) =~= lex);
    lemma_field_value_roundtrip(f.kind, v);
    assert(e0 + close.len() == w + fx.len());
    assert(spec_read_field_one(x, f, pos) == Ok::<_, Seq<char>>((v, w + fx.len()))) by {
        reveal(spec_read_field_one);
        assert(occurs_at(x, open, w));
        assert(first_occurrence_from(x, close, cs) == Some(e0));
        assert(spec_field_value(f.kind, x.subrange(cs, e0)) == Some(v));
    }
}

/// Reading fields back from a text that carries their serialized
/// elements — after any whitespace at `pos` — recovers exactly the
/// values that were written: present fields read their elements, absent
/// optional fields read as absent.
#[verifier::rlimit(100)]
pub proof fn lemma_read_fields_roundtrip(
    x: Seq<char>,
    fields: Seq<FieldModel>,
    vs: Seq<ValueModel>,
    pos: int,
)
    requires
        fields.len() == vs.len(),
        values_match(vs, fields),
        values_not_raw(vs),
        distinct_wire_names(fields),
        wire_names_identifiers(fields),
        0 <= pos <= x.len(),
        spec_skip_ws(x, pos) + spec_fields_xml(fields, vs).len() <= x.len(),
        x.subrange(
            spec_skip_ws(x, pos),
            spec_skip_ws(x, pos) + spec_fields_xml(fields, vs).len(),
        ) == spec_fields_xml(fields, vs),
        benign_tail(x, spec_skip_ws(x, spec_skip_ws(x, pos) + spec_fields_xml(fields, vs).len())),
    ensures
        spec_read_fields(x, fields, pos) == Ok::<_, Seq<char>>(vs),
    decreases fields.len(),
{
    reveal_strlit("<");
    reveal_strlit(">");
    reveal_strlit("</");
    if fields.len() == 0 {
        assert(vs =~= Seq::<ValueModel>::empty());
    } else {
        crate::text::lemma_skip_ws_bounds(x, pos);
        let w = spec_skip_ws(x, pos);
        let f = fields[0];
        let v = vs[0];
        let body = spec_fields_xml(fields, vs);
        let fx = spec_field_xml(f, v);
        let rest_fields = fields.drop_first();
        let rest_vs = vs.drop_first();
        let rest_body = spec_fields_xml(rest_fields, rest_vs);
        let pe = spec_skip_ws(x, w + body.len());
        assert(value_matches(v, f.kind));
        assert(body == fx + rest_body);
        assert(body.len() == fx.len() + rest_body.len());
        assert(rest_fields.len() == rest_vs.len());
        assert(forall|i: int|
            0 <= i < rest_vs.len() ==> !((#[trigger] rest_vs[i]) is VRaw) && value_matches(
                rest_vs[i],
                rest_fields[i].kind,
            ) && crate::attributes::spec_valid_identifier(rest_fields[i].xml_name));
        assert(forall|i: int, j: int|
            0 <= i < j < rest_fields.len() ==> (#[trigger] rest_fields[i].xml_name) != (
            #[trigger] rest_fields[j].xml_name));
        if !(v is VNone) {
            assert(value_simple(v));
            assert forall|idx: int| 0 <= idx < fx.len() implies x[w + idx] == fx[idx] by {
                assert(x.subrange(w, w + body.len())[idx] == x[w + idx]);
                assert(body[idx] == fx[idx]);
            }
            assert(x.subrange(w, w + fx.len()) =~= fx);
            lemma_read_one_roundtrip(x, f, v, pos);
            let pos2 = w + fx.len();
            assert forall|idx: int| 0 <= idx < rest_body.len() implies x[pos2 + idx]
                == rest_body[idx] by {
                assert(x.subrange(w, w + body.len())[pos2 - w + idx] == x[pos2 + idx]);
                assert(body[pos2 - w + idx] == rest_body[idx]);
            }
            lemma_fields_xml_structure(rest_fields, rest_vs);
            let fp2 = spec_first_present(rest_vs);
            if fp2 >= 0 {
                let name2 = rest_fields[fp2].xml_name;
                assert(rest_body.subrange(0, name2.len() as int + 2)[0] == rest_body[0]);
                assert(("<"@ + name2 + ">"@)[0] == '<');
                assert(x[pos2] == rest_body[0]);
                assert(!crate::text::is_space('<'));
                crate::text::lemma_skip_ws_is_least(x, pos2, pos2);
                assert(spec_skip_ws(x, pos2) == pos2);
                assert(x.subrange(pos2, pos2 + rest_body.len()) =~= rest_body);
                assert(spec_skip_ws(x, spec_skip_ws(x, pos2) + rest_body.len()) == pe);
            } else {
                assert(rest_body =~= Seq::<char>::empty());
                crate::text::lemma_skip_ws_bounds(x, pos2);
                crate::text::lemma_skip_ws_idempotent(x, pos2);
                let w2 = spec_skip_ws(x, pos2);
                assert(x.subrange(w2, w2 + 0) =~= Seq::<char>::empty());
                assert(spec_skip_ws(x, w2 + rest_body.len()) == spec_skip_ws(x, w2));
                assert(pe == spec_skip_ws(x, pos2));
                assert(spec_skip_ws(x, spec_skip_ws(x, pos2) + rest_body.len()) == pe);
            }
            lemma_read_fields_roundtrip(x, rest_fields, rest_vs, pos2);
            assert(seq![v] + rest_vs =~= vs);
            assert(spec_read_fields(x, fields, pos) == Ok::<_, Seq<char>>(vs));
        } else {
            // The field is absent: its opening tag does not stand at the
            // read position, which holds the next present field's tag,
            // the benign tail, or nothing.
            assert(fx =~= Seq::<char>::empty());
            assert(body =~= rest_body);
            let name0 = f.xml_name;
            let open0 = "<"@ + name0 + ">"@;
            assert(crate::attributes::spec_valid_identifier(name0));
            assert(open0.len() == name0.len() + 2);
            lemma_fields_xml_structure(fields, vs);
            let fp = spec_first_present(vs);
            assert(fp != 0);
            if fp >= 1 {
                let namep = fields[fp].xml_name;
                assert(namep != name0);
                assert forall|idx: int| 0 <= idx < namep.len() + 2 implies x[w + idx] == ("<"@
                    + namep + ">"@)[idx] by {
                    assert(x.subrange(w, w + body.len())[idx] == x[w + idx]);
                    assert(body.subrange(0, namep.len() as int + 2)[idx] == body[idx]);
                }
                assert(x.subrange(w, w + namep.len() + 2) =~= "<"@ + namep + ">"@);
                lemma_open_tag_mismatch(x, name0, namep, w);
                assert(!occurs_at(x, open0, w));
            } else {
                assert(body =~= Seq::<char>::empty());
                crate::text::lemma_skip_ws_idempotent(x, pos);
                assert(pe == spec_skip_ws(x, w)) by {
                    assert(w + body.len() == w);
                }
                assert(pe == w);
                assert(benign_tail(x, w));
                if occurs_at(x, open0, w) {
                    assert(w + open0.len() <= x.len());
                    assert(w + 1 < x.len());
                    assert(x.subrange(w, w + open0.len() as int)[0] == x[w]);
                    assert(x[w] == open0[0]);
                    assert(open0[0] == '<');
                    assert(x.subrange(w, w + open0.len() as int)[1] == x[w + 1]);
                    assert(x[w + 1] == open0[1]);
                    assert(open0[1] == name0[0]);
                    assert(crate::attributes::is_ident_char(name0[0]));
                    assert(x[w + 1] == '/');
                    assert(false);
                }
                assert(!occurs_at(x, open0, w));
            }
            assert(crate::types::spec_field_required(f.kind) == false) by {
                assert(value_matches(ValueModel::VNone, f.kind));
            }
            assert(spec_read_field_one(x, f, pos) == Ok::<_, Seq<char>>((ValueModel::VNone, w)))
                by {
                reveal(spec_read_field_one);
            }
            // The remaining fields are read from the same position.
            crate::text::lemma_skip_ws_idempotent(x, pos);
            assert(spec_skip_ws(x, w) == w);
            assert(x.subrange(w, w + rest_body.len()) == rest_body) by {
                assert(body == rest_body);
            }
            assert(spec_skip_ws(x, spec_skip_ws(x, w) + rest_body.len()) == pe) by {
                assert(rest_body.len() == body.len());
            }
            lemma_read_fields_roundtrip(x, rest_fields, rest_vs, w);
            assert(seq![ValueModel::VNone] + rest_vs =~= vs);
            assert(spec_read_fields(x, fields, pos) == Ok::<_, Seq<char>>(vs));
        }
    }
}

/// Deserializes an XML fragment into the typed field values of `info`,
/// exactly as `spec_deserialize` says; a fragment the type cannot read is
/// rejected with the error the specification assigns to it.
#[verifier::rlimit(100)]
pub fn deserialize_from_xml(info: &TypeInfo, xml: &str) -> (r: Result<Vec<FieldValue>, SoapError>)
    ensures
        match r {
            Ok(vals) => spec_deserialize(info@, xml@) == Ok::<_, Seq<char>>(vals_models(vals@)),
            Err(e) => e@ is ParseError && spec_deserialize(info@, xml@) == Err::<Seq<ValueModel>, _>(
                e@->ParseError_0,
            ),
        },
{
    proof {
        reveal(spec_deserialize);
    }
    let n = xml.unicode_len();
    let a = skip_ws(xml, 0);
    if a >= n || xml.get_char(a) != '<' {
        return Err(SoapError::ParseError(String::from_str("No XML element found")));
    }
    let g = match find_char(xml, a, '>') {
        Some(g) => g,
        None => {
            return Err(
                SoapError::ParseError(String::from_str("Invalid XML: no closing bracket found")),
            );
        },
    };
    let nf = info.fields.len();
    let ghost fms = info@.fields;
    let ghost target = spec_deserialize(info@, xml@);
    let mut vals: Vec<FieldValue> = Vec::new();
    let mut pos: usize = g + 1;
    let mut i: usize = 0;
    proof {
        assert(fms.skip(0) =~= fms);
        assert(vals_models(vals@) =~= Seq::<ValueModel>::empty());
        assert(target == spec_read_fields(xml@, fms, (g + 1) as int));
    }
    while i < nf
        invariant
            n == xml@.len(),
            nf == info.fields@.len(),
            fms == info@.fields,
            fms.len() == nf,
            0 <= i <= nf,
            pos <= n,
            vals@.len() == i,
            target == spec_deserialize(info@, xml@),
            target == (match spec_read_fields(xml@, fms.skip(i as int), pos as int) {
                Ok(rest) => Ok::<_, Seq<char>>(vals_models(vals@) + rest),
                Err(m) => Err(m),
            }),
        decreases nf - i,
    {
        let ghost fm = fms.skip(i as int)[0];
        proof {
            assert(fm == fms[i as int]);
            assert(fms.skip(i as int).drop_first() =~= fms.skip(i + 1));
        }
        let field = &info.fields[i];
        match read_field(xml, field, pos) {
            Err(e) => {
                return Err(e);
            },
            Ok((v, newpos)) => {
                let ghost old_vals = vals_models(vals@);
                let ghost vm = v@;
                vals.push(v);
                pos = newpos;
                proof {
                    assert(vals_models(vals@) =~= old_vals.push(vm));
                    let step = spec_read_fields(xml@, fms.skip(i + 1), pos as int);
                    match step {
                        Ok(rest) => {
                            assert(old_vals + (seq![vm] + rest) =~= old_vals.push(vm) + rest);
                        },
                        Err(_) => {},
                    }
                }
            },
        }
        i = i + 1;
    }
    proof {
        assert(fms.skip(nf as int) =~= Seq::<FieldModel>::empty());
        assert(vals_models(vals@) + Seq::<ValueModel>::empty() =~= vals_models(vals@));
    }
    Ok(vals)
}

} // verus!
