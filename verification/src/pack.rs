//! The response decoder: from the bytes of a tagged response to one typed value.

use crate::endian::{le_signed, le_value, lemma_le_value_unfold, u16_from_le, u32_from_le};
use crate::error::{Error, ErrorView};
use vstd::prelude::*;
use vstd::slice::slice_subrange;

verus! {

/// A decoded response. Floating-point values are held by their IEEE 754 bit
/// patterns: `Float` by the 64 bits of a double, `C64V` by the 32 bits of the
/// real and of the imaginary single of each complex number.
#[derive(Debug, PartialEq, Eq)]
pub enum Types {
    Int(i64),
    Float(u64),
    Bool(bool),
    Str(String),
    Error(String),
    Nil,
    U8V(Vec<u8>),
    U16V(Vec<u16>),
    S16V(Vec<i16>),
    U32V(Vec<u32>),
    S32V(Vec<i32>),
    C64V(Vec<(u32, u32)>),
    List(Vec<Types>),
}

/// The mathematical content of a [`Types`] value.
pub ghost enum Value {
    Int(i64),
    Float(u64),
    Bool(bool),
    Str(Seq<char>),
    Error(Seq<char>),
    Nil,
    U8V(Seq<u8>),
    U16V(Seq<u16>),
    S16V(Seq<i16>),
    U32V(Seq<u32>),
    S32V(Seq<i32>),
    C64V(Seq<(u32, u32)>),
    List(Seq<Value>),
}

impl View for Types {
    type V = Value;

    open spec fn view(&self) -> Value
        decreases self,
    {
        match self {
            Types::Int(v) => Value::Int(*v),
            Types::Float(bits) => Value::Float(*bits),
            Types::Bool(b) => Value::Bool(*b),
            Types::Str(s) => Value::Str(s@),
            Types::Error(s) => Value::Error(s@),
            Types::Nil => Value::Nil,
            Types::U8V(v) => Value::U8V(v@),
            Types::U16V(v) => Value::U16V(v@),
            Types::S16V(v) => Value::S16V(v@),
            Types::U32V(v) => Value::U32V(v@),
            Types::S32V(v) => Value::S32V(v@),
            Types::C64V(v) => Value::C64V(v@),
            Types::List(items) => Value::List(
                Seq::new(
                    items@.len(),
                    |i: int|
                        if 0 <= i < items@.len() {
                            items@[i].view()
                        } else {
                            Value::Nil
                        },
                ),
            ),
        }
    }
}

/// The outcome of a decode with its texts and vectors as sequences.
pub open spec fn outcome(r: Result<Types, Error>) -> Result<Value, ErrorView> {
    match r {
        Ok(v) => Ok(v@),
        Err(e) => Err(e@),
    }
}

/// What a buffer starts with when read as an array header: the announced
/// number of elements and the bytes after the header, or nothing where the
/// buffer does not start with an array header.
pub uninterp spec fn array_len_item(buf: Seq<u8>) -> Option<(u32, Seq<u8>)>;

/// What a buffer starts with when read as a string: its text and the bytes
/// after it, or nothing where the buffer does not start with a whole UTF-8 string.
pub uninterp spec fn str_item(buf: Seq<u8>) -> Option<(Seq<char>, Seq<u8>)>;

/// The integer a buffer starts with, where it starts with an integer of any
/// width that fits 64 signed bits.
pub uninterp spec fn int_item(buf: Seq<u8>) -> Option<i64>;

/// The bits of the double a buffer starts with, where it starts with one.
pub uninterp spec fn float_item(buf: Seq<u8>) -> Option<u64>;

/// The boolean a buffer starts with, where it starts with one.
pub uninterp spec fn bool_item(buf: Seq<u8>) -> Option<bool>;

/// What a buffer starts with when read as a binary header: the announced
/// length of the blob and the bytes after the header.
pub uninterp spec fn bin_len_item(buf: Seq<u8>) -> Option<(u32, Seq<u8>)>;

/// Calls `rmp::decode::read_array_len` on a reader over `buf`. On success the
/// announced length comes back with what the reader has left; any failure of
/// the read gives `None`. Both depend on the bytes alone.
#[verifier::external_body]
fn read_array_len<'a>(buf: &'a [u8]) -> (r: Option<(u32, &'a [u8])>)
    ensures
        match array_len_item(buf@) {
            Some((len, rest)) => r matches Some((n, tail)) && n == len && tail@ == rest,
            None => r is None,
        },
{
    let mut reader = buf;
    match rmp::decode::read_array_len(&mut reader) {
        Ok(n) => Some((n, reader)),
        Err(_) => None,
    }
}

/// Calls `rmp::decode::read_str_from_slice`. On success the text comes back
/// with the tail of the buffer, which is shorter than the buffer since at
/// least the marker byte was taken; any failure gives `None`.
#[verifier::external_body]
fn read_str<'a>(buf: &'a [u8]) -> (r: Option<(String, &'a [u8])>)
    ensures
        match str_item(buf@) {
            Some((text, rest)) => r matches Some((s, tail)) && s@ == text && tail@ == rest,
            None => r is None,
        },
        r matches Some((_, tail)) ==> tail@.len() < buf@.len(),
{
    match rmp::decode::read_str_from_slice(buf) {
        Ok((s, tail)) => Some((s.to_string(), tail)),
        Err(_) => None,
    }
}

/// Calls `rmp::decode::read_int` for a 64-bit signed result. Any failure of
/// the read, a value out of range included, gives `None`.
#[verifier::external_body]
fn read_int(buf: &[u8]) -> (r: Option<i64>)
    ensures
        r == int_item(buf@),
{
    let mut reader = buf;
    rmp::decode::read_int(&mut reader).ok()
}

/// Calls `rmp::decode::read_f64` and hands the double back by its bits.
#[verifier::external_body]
fn read_float_bits(buf: &[u8]) -> (r: Option<u64>)
    ensures
        r == float_item(buf@),
{
    let mut reader = buf;
    match rmp::decode::read_f64(&mut reader) {
        Ok(v) => Some(v.to_bits()),
        Err(_) => None,
    }
}

/// Calls `rmp::decode::read_bool`.
#[verifier::external_body]
fn read_bool(buf: &[u8]) -> (r: Option<bool>)
    ensures
        r == bool_item(buf@),
{
    let mut reader = buf;
    rmp::decode::read_bool(&mut reader).ok()
}

/// Calls `rmp::decode::read_bin_len` on a reader over `buf`. On success the
/// announced length comes back with what the reader has left.
#[verifier::external_body]
fn read_bin_len<'a>(buf: &'a [u8]) -> (r: Option<(u32, &'a [u8])>)
    ensures
        match bin_len_item(buf@) {
            Some((len, rest)) => r matches Some((n, tail)) && n == len && tail@ == rest,
            None => r is None,
        },
{
    let mut reader = buf;
    match rmp::decode::read_bin_len(&mut reader) {
        Ok(n) => Some((n, reader)),
        Err(_) => None,
    }
}

/// The first `len` bytes of `rest`, where it holds that many.
pub open spec fn spec_take(len: u32, rest: Seq<u8>) -> Option<Seq<u8>> {
    if len <= rest.len() {
        Some(rest.subrange(0, len as int))
    } else {
        None
    }
}

/// The blob a buffer starts with: a binary header and as many bytes as it announces.
pub open spec fn spec_blob(buf: Seq<u8>) -> Option<Seq<u8>> {
    match bin_len_item(buf) {
        Some((len, rest)) => spec_take(len, rest),
        None => None,
    }
}

/// Whole groups of two bytes, each read as a little-endian number; a last odd byte is left out.
pub open spec fn u16_groups(data: Seq<u8>) -> Seq<u16> {
    Seq::new(data.len() / 2, |i: int| le_value(data.subrange(2 * i, 2 * i + 2)) as u16)
}

/// Whole groups of two bytes, each read as a little-endian two's-complement number.
pub open spec fn s16_groups(data: Seq<u8>) -> Seq<i16> {
    Seq::new(data.len() / 2, |i: int| le_signed(data.subrange(2 * i, 2 * i + 2)) as i16)
}

/// Whole groups of four bytes, each read as a little-endian number.
pub open spec fn u32_groups(data: Seq<u8>) -> Seq<u32> {
    Seq::new(data.len() / 4, |i: int| le_value(data.subrange(4 * i, 4 * i + 4)) as u32)
}

/// Whole groups of four bytes, each read as a little-endian two's-complement number.
pub open spec fn s32_groups(data: Seq<u8>) -> Seq<i32> {
    Seq::new(data.len() / 4, |i: int| le_signed(data.subrange(4 * i, 4 * i + 4)) as i32)
}

/// Whole groups of eight bytes: the bits of a real part in the first four
/// bytes, of an imaginary part in the next four, each little-endian.
pub open spec fn c64_groups(data: Seq<u8>) -> Seq<(u32, u32)> {
    Seq::new(
        data.len() / 8,
        |i: int|
            (
                le_value(data.subrange(8 * i, 8 * i + 4)) as u32,
                le_value(data.subrange(8 * i + 4, 8 * i + 8)) as u32,
            ),
    )
}

/// The strings that fill a buffer to its end, in the order they stand in it;
/// nothing where a read fails before the end is reached.
pub open spec fn spec_strings(buf: Seq<u8>) -> Option<Seq<Seq<char>>>
    decreases buf.len(),
{
    match str_item(buf) {
        None => None,
        Some((text, rest)) => if rest.len() == 0 {
            Some(seq![text])
        } else if rest.len() < buf.len() {
            match spec_strings(rest) {
                Some(more) => Some(seq![text] + more),
                None => None,
            }
        } else {
            None
        },
    }
}

/// The list value of collected strings: the strings as `Str` values, last collected first.
pub open spec fn spec_list_of(strings: Seq<Seq<char>>) -> Value {
    Value::List(Seq::new(strings.len(), |i: int| Value::Str(strings[strings.len() - 1 - i])))
}

/// A `string` payload: one string.
pub open spec fn spec_str(payload: Seq<u8>) -> Result<Value, ErrorView> {
    match str_item(payload) {
        Some((text, _)) => Ok(Value::Str(text)),
        None => Err(ErrorView::Malformed),
    }
}

/// An `error` payload: one string, which is the failure of the decode.
pub open spec fn spec_err(payload: Seq<u8>) -> Result<Value, ErrorView> {
    match str_item(payload) {
        Some((text, _)) => Err(ErrorView::Server(text)),
        None => Err(ErrorView::Malformed),
    }
}

/// A `bool` payload: one boolean.
pub open spec fn spec_bool(payload: Seq<u8>) -> Result<Value, ErrorView> {
    match bool_item(payload) {
        Some(b) => Ok(Value::Bool(b)),
        None => Err(ErrorView::Malformed),
    }
}

/// An `int` payload: one integer of any width.
pub open spec fn spec_int(payload: Seq<u8>) -> Result<Value, ErrorView> {
    match int_item(payload) {
        Some(v) => Ok(Value::Int(v)),
        None => Err(ErrorView::Malformed),
    }
}

/// A `float` payload: one double.
pub open spec fn spec_float(payload: Seq<u8>) -> Result<Value, ErrorView> {
    match float_item(payload) {
        Some(bits) => Ok(Value::Float(bits)),
        None => Err(ErrorView::Malformed),
    }
}

/// A `u8v` or `s8v` payload: one blob, taken as it is.
pub open spec fn spec_u8v(payload: Seq<u8>) -> Result<Value, ErrorView> {
    match spec_blob(payload) {
        Some(data) => Ok(Value::U8V(data)),
        None => Err(ErrorView::Malformed),
    }
}

/// A `u16v` payload: one blob, split into groups of two bytes.
pub open spec fn spec_u16v(payload: Seq<u8>) -> Result<Value, ErrorView> {
    match spec_blob(payload) {
        Some(data) => Ok(Value::U16V(u16_groups(data))),
        None => Err(ErrorView::Malformed),
    }
}

/// An `s16v` payload: one blob, split into signed groups of two bytes.
pub open spec fn spec_s16v(payload: Seq<u8>) -> Result<Value, ErrorView> {
    match spec_blob(payload) {
        Some(data) => Ok(Value::S16V(s16_groups(data))),
        None => Err(ErrorView::Malformed),
    }
}

/// A `u32v` payload: one blob, split into groups of four bytes.
pub open spec fn spec_u32v(payload: Seq<u8>) -> Result<Value, ErrorView> {
    match spec_blob(payload) {
        Some(data) => Ok(Value::U32V(u32_groups(data))),
        None => Err(ErrorView::Malformed),
    }
}

/// An `s32v` payload: one blob, split into signed groups of four bytes.
pub open spec fn spec_s32v(payload: Seq<u8>) -> Result<Value, ErrorView> {
    match spec_blob(payload) {
        Some(data) => Ok(Value::S32V(s32_groups(data))),
        None => Err(ErrorView::Malformed),
    }
}

/// A `c64v` payload: one blob, split into complex numbers of eight bytes.
pub open spec fn spec_c64v(payload: Seq<u8>) -> Result<Value, ErrorView> {
    match spec_blob(payload) {
        Some(data) => Ok(Value::C64V(c64_groups(data))),
        None => Err(ErrorView::Malformed),
    }
}

/// A `list` payload. Where the array announces more than the tag, strings
/// are read until the payload is used up, and at least one must be there;
/// the list holds them in reverse. Where it announces the tag alone, the
/// list is empty.
pub open spec fn spec_list(len: u32, payload: Seq<u8>) -> Result<Value, ErrorView> {
    if len > 1 {
        match spec_strings(payload) {
            Some(strings) => Ok(spec_list_of(strings)),
            None => Err(ErrorView::Malformed),
        }
    } else {
        Ok(spec_list_of(Seq::empty()))
    }
}

/// What the payload of a response decodes to: the tag selects the variant,
/// and a tag outside the closed set is refused by name.
pub open spec fn spec_decode(tag: Seq<char>, len: u32, payload: Seq<u8>) -> Result<
    Value,
    ErrorView,
> {
    if tag == "string"@ {
        spec_str(payload)
    } else if tag == "error"@ {
        spec_err(payload)
    } else if tag == "bool"@ {
        spec_bool(payload)
    } else if tag == "int"@ {
        spec_int(payload)
    } else if tag == "float"@ {
        spec_float(payload)
    } else if tag == "null"@ {
        Ok(Value::Nil)
    } else if tag == "u8v"@ || tag == "s8v"@ {
        spec_u8v(payload)
    } else if tag == "u16v"@ {
        spec_u16v(payload)
    } else if tag == "s16v"@ {
        spec_s16v(payload)
    } else if tag == "u32v"@ {
        spec_u32v(payload)
    } else if tag == "s32v"@ {
        spec_s32v(payload)
    } else if tag == "c64v"@ {
        spec_c64v(payload)
    } else if tag == "list"@ {
        spec_list(len, payload)
    } else {
        Err(ErrorView::UnknownType(tag))
    }
}

/// What a response decodes to: an array header that announces at least one
/// element, the tag as a string, then the payload as the tag asks.
pub open spec fn spec_unpack(buf: Seq<u8>) -> Result<Value, ErrorView> {
    match array_len_item(buf) {
        None => Err(ErrorView::Malformed),
        Some((len, rest)) => if len < 1 {
            Err(ErrorView::InvalidLength)
        } else {
            match str_item(rest) {
                None => Err(ErrorView::Malformed),
                Some((tag, payload)) => spec_decode(tag, len, payload),
            }
        },
    }
}

/// The first `len` bytes of what follows a binary header.
pub fn take<'a>(len: u32, rest: &'a [u8]) -> (r: Option<&'a [u8]>)
    ensures
        match spec_take(len, rest@) {
            Some(data) => r matches Some(d) && d@ == data,
            None => r is None,
        },
{
    if len as usize <= rest.len() {
        Some(slice_subrange(rest, 0, len as usize))
    } else {
        None
    }
}

/// Reads the blob that a payload starts with.
fn read_blob<'a>(reader: &'a [u8]) -> (r: Option<&'a [u8]>)
    ensures
        match spec_blob(reader@) {
            Some(data) => r matches Some(d) && d@ == data,
            None => r is None,
        },
{
    match read_bin_len(reader) {
        Some((len, rest)) => take(len, rest),
        None => None,
    }
}

/// Splits a blob into unsigned 16-bit numbers, two little-endian bytes each.
pub fn to_u16v(data: &[u8]) -> (v: Vec<u16>)
    ensures
        v@ == u16_groups(data@),
{
    let n = data.len() / 2;
    let mut v: Vec<u16> = Vec::new();
    let mut i: usize = 0;
    while i < n
        invariant
            i <= n,
            n == data@.len() / 2,
            data@.len() <= usize::MAX,
            v@ == u16_groups(data@).subrange(0, i as int),
        decreases n - i,
    {
        let x = u16_from_le(data[2 * i], data[2 * i + 1]);
        assert(data@.subrange(2 * i, 2 * i + 2) =~= seq![data@[2 * i], data@[2 * i + 1]]);
        v.push(x);
        assert(v@ =~= u16_groups(data@).subrange(0, i + 1));
        i += 1;
    }
    assert(v@ =~= u16_groups(data@));
    v
}

/// Splits a blob into signed 16-bit numbers, two little-endian bytes each.
pub fn to_s16v(data: &[u8]) -> (v: Vec<i16>)
    ensures
        v@ == s16_groups(data@),
{
    let n = data.len() / 2;
    let mut v: Vec<i16> = Vec::new();
    let mut i: usize = 0;
    while i < n
        invariant
            i <= n,
            n == data@.len() / 2,
            data@.len() <= usize::MAX,
            v@ == s16_groups(data@).subrange(0, i as int),
        decreases n - i,
    {
        let u = u16_from_le(data[2 * i], data[2 * i + 1]);
        let x: i16 = if u >= 0x8000 {
            (u as i32 - 0x1_0000) as i16
        } else {
            u as i16
        };
        proof {
            let group = data@.subrange(2 * i, 2 * i + 2);
            assert(group =~= seq![data@[2 * i], data@[2 * i + 1]]);
            lemma_le_value_unfold(group);
        }
        v.push(x);
        assert(v@ =~= s16_groups(data@).subrange(0, i + 1));
        i += 1;
    }
    assert(v@ =~= s16_groups(data@));
    v
}

/// Splits a blob into unsigned 32-bit numbers, four little-endian bytes each.
pub fn to_u32v(data: &[u8]) -> (v: Vec<u32>)
    ensures
        v@ == u32_groups(data@),
{
    let n = data.len() / 4;
    let mut v: Vec<u32> = Vec::new();
    let mut i: usize = 0;
    while i < n
        invariant
            i <= n,
            n == data@.len() / 4,
            data@.len() <= usize::MAX,
            v@ == u32_groups(data@).subrange(0, i as int),
        decreases n - i,
    {
        let x = u32_from_le(data[4 * i], data[4 * i + 1], data[4 * i + 2], data[4 * i + 3]);
        assert(data@.subrange(4 * i, 4 * i + 4) =~= seq![
            data@[4 * i],
            data@[4 * i + 1],
            data@[4 * i + 2],
            data@[4 * i + 3],
        ]);
        v.push(x);
        assert(v@ =~= u32_groups(data@).subrange(0, i + 1));
        i += 1;
    }
    assert(v@ =~= u32_groups(data@));
    v
}

/// Splits a blob into signed 32-bit numbers, four little-endian bytes each.
pub fn to_s32v(data: &[u8]) -> (v: Vec<i32>)
    ensures
        v@ == s32_groups(data@),
{
    let n = data.len() / 4;
    let mut v: Vec<i32> = Vec::new();
    let mut i: usize = 0;
    while i < n
        invariant
            i <= n,
            n == data@.len() / 4,
            data@.len() <= usize::MAX,
            v@ == s32_groups(data@).subrange(0, i as int),
        decreases n - i,
    {
        let u = u32_from_le(data[4 * i], data[4 * i + 1], data[4 * i + 2], data[4 * i + 3]);
        let x: i32 = if u >= 0x8000_0000 {
            (u as i64 - 0x1_0000_0000) as i32
        } else {
            u as i32
        };
        proof {
            let group = data@.subrange(4 * i, 4 * i + 4);
            assert(group =~= seq![
                data@[4 * i],
                data@[4 * i + 1],
                data@[4 * i + 2],
                data@[4 * i + 3],
            ]);
            lemma_le_value_unfold(group);
        }
        v.push(x);
        assert(v@ =~= s32_groups(data@).subrange(0, i + 1));
        i += 1;
    }
    assert(v@ =~= s32_groups(data@));
    v
}

/// Splits a blob into complex numbers of eight bytes each: the bits of the
/// real part, then the bits of the imaginary part.
pub fn to_c64v(data: &[u8]) -> (v: Vec<(u32, u32)>)
    ensures
        v@ == c64_groups(data@),
{
    let n = data.len() / 8;
    let mut v: Vec<(u32, u32)> = Vec::new();
    let mut i: usize = 0;
    while i < n
        invariant
            i <= n,
            n == data@.len() / 8,
            data@.len() <= usize::MAX,
            v@ == c64_groups(data@).subrange(0, i as int),
        decreases n - i,
    {
        let re = u32_from_le(data[8 * i], data[8 * i + 1], data[8 * i + 2], data[8 * i + 3]);
        let im = u32_from_le(data[8 * i + 4], data[8 * i + 5], data[8 * i + 6], data[8 * i + 7]);
        assert(data@.subrange(8 * i, 8 * i + 4) =~= seq![
            data@[8 * i],
            data@[8 * i + 1],
            data@[8 * i + 2],
            data@[8 * i + 3],
        ]);
        assert(data@.subrange(8 * i + 4, 8 * i + 8) =~= seq![
            data@[8 * i + 4],
            data@[8 * i + 5],
            data@[8 * i + 6],
            data@[8 * i + 7],
        ]);
        v.push((re, im));
        assert(v@ =~= c64_groups(data@).subrange(0, i + 1));
        i += 1;
    }
    assert(v@ =~= c64_groups(data@));
    v
}

/// The texts of a vector of strings.
pub open spec fn texts(strings: Seq<String>) -> Seq<Seq<char>> {
    Seq::new(strings.len(), |i: int| strings[i]@)
}

/// Turns collected strings into a list value, reversing their order: the
/// string collected last comes first.
pub fn list_of(strings: Vec<String>) -> (list: Types)
    ensures
        list@ == spec_list_of(texts(strings@)),
{
    let mut strings = strings;
    let ghost all = strings@;
    let mut items: Vec<Types> = Vec::new();
    while strings.len() > 0
        invariant
            strings@.len() <= all.len(),
            strings@ == all.subrange(0, strings@.len() as int),
            items@.len() == all.len() - strings@.len(),
            forall|i: int|
                0 <= i < items@.len() ==> (#[trigger] items@[i])@ == Value::Str(
                    all[all.len() - 1 - i]@,
                ),
        decreases strings@.len(),
    {
        let ghost k = items@.len();
        let s = strings.pop().unwrap();
        items.push(Types::Str(s));
        assert(items@[k as int]@ == Value::Str(all[all.len() - 1 - k]@));
    }
    let list = Types::List(items);
    proof {
        let expected = spec_list_of(texts(all));
        assert(list@ matches Value::List(got) && expected matches Value::List(want) && got =~= want);
    }
    list
}

fn unpack_str(reader: &[u8]) -> (r: Result<Types, Error>)
    ensures
        outcome(r) == spec_str(reader@),
{
    match read_str(reader) {
        Some((text, _)) => Ok(Types::Str(text)),
        None => Err(Error::Malformed),
    }
}

fn unpack_err(reader: &[u8]) -> (r: Result<Types, Error>)
    ensures
        outcome(r) == spec_err(reader@),
{
    match read_str(reader) {
        Some((text, _)) => Err(Error::Server(text)),
        None => Err(Error::Malformed),
    }
}

fn unpack_int(reader: &[u8]) -> (r: Result<Types, Error>)
    ensures
        outcome(r) == spec_int(reader@),
{
    match read_int(reader) {
        Some(v) => Ok(Types::Int(v)),
        None => Err(Error::Malformed),
    }
}

fn unpack_float(reader: &[u8]) -> (r: Result<Types, Error>)
    ensures
        outcome(r) == spec_float(reader@),
{
    match read_float_bits(reader) {
        Some(bits) => Ok(Types::Float(bits)),
        None => Err(Error::Malformed),
    }
}

fn unpack_bool(reader: &[u8]) -> (r: Result<Types, Error>)
    ensures
        outcome(r) == spec_bool(reader@),
{
    match read_bool(reader) {
        Some(b) => Ok(Types::Bool(b)),
        None => Err(Error::Malformed),
    }
}

fn unpack_nil() -> (r: Result<Types, Error>)
    ensures
        outcome(r) == Ok::<Value, ErrorView>(Value::Nil),
{
    Ok(Types::Nil)
}

fn unpack_u8v(reader: &[u8]) -> (r: Result<Types, Error>)
    ensures
        outcome(r) == spec_u8v(reader@),
{
    match read_blob(reader) {
        Some(data) => Ok(Types::U8V(vstd::slice::slice_to_vec(data))),
        None => Err(Error::Malformed),
    }
}

fn unpack_u16v(reader: &[u8]) -> (r: Result<Types, Error>)
    ensures
        outcome(r) == spec_u16v(reader@),
{
    match read_blob(reader) {
        Some(data) => Ok(Types::U16V(to_u16v(data))),
        None => Err(Error::Malformed),
    }
}

fn unpack_s16v(reader: &[u8]) -> (r: Result<Types, Error>)
    ensures
        outcome(r) == spec_s16v(reader@),
{
    match read_blob(reader) {
        Some(data) => Ok(Types::S16V(to_s16v(data))),
        None => Err(Error::Malformed),
    }
}

fn unpack_u32v(reader: &[u8]) -> (r: Result<Types, Error>)
    ensures
        outcome(r) == spec_u32v(reader@),
{
    match read_blob(reader) {
        Some(data) => Ok(Types::U32V(to_u32v(data))),
        None => Err(Error::Malformed),
    }
}

fn unpack_s32v(reader: &[u8]) -> (r: Result<Types, Error>)
    ensures
        outcome(r) == spec_s32v(reader@),
{
    match read_blob(reader) {
        Some(data) => Ok(Types::S32V(to_s32v(data))),
        None => Err(Error::Malformed),
    }
}

fn unpack_c64v(reader: &[u8]) -> (r: Result<Types, Error>)
    ensures
        outcome(r) == spec_c64v(reader@),
{
    match read_blob(reader) {
        Some(data) => Ok(Types::C64V(to_c64v(data))),
        None => Err(Error::Malformed),
    }
}

fn unpack_list(reader: &[u8], n: u32) -> (r: Result<Types, Error>)
    ensures
        outcome(r) == spec_list(n, reader@),
{
    let mut strings: Vec<String> = Vec::new();
    if n > 1 {
        let mut rest = reader;
        loop
            invariant_except_break
                spec_strings(reader@) == match spec_strings(rest@) {
                    Some(more) => Some(texts(strings@) + more),
                    None => None,
                },
            invariant
                n > 1,
            ensures
                spec_strings(reader@) == Some(texts(strings@)),
            decreases rest@.len(),
        {
            let ghost before = texts(strings@);
            match read_str(rest) {
                None => {
                    return Err(Error::Malformed);
                },
                Some((text, tail)) => {
                    strings.push(text);
                    assert(texts(strings@) =~= before + seq![text@]);
                    if tail.len() == 0 {
                        break ;
                    }
                    proof {
                        match spec_strings(tail@) {
                            Some(more) => {
                                assert(before + (seq![text@] + more) =~= texts(strings@) + more);
                            },
                            None => {},
                        }
                    }
                    rest = tail;
                },
            }
        }
    } else {
        assert(texts(strings@) =~= Seq::empty());
    }
    Ok(list_of(strings))
}

/// Whether a tag reads as the given word.
fn tag_is(tag: &String, word: &str) -> (b: bool)
    ensures
        b == (tag@ == word@),
{
    *tag == String::from_str(word)
}

/// The tag selects the variant: each of the fourteen tags leads to its own
/// reading of the payload, `u8v` and `s8v` to the same one.
pub proof fn lemma_decode_by_tag(len: u32, payload: Seq<u8>)
    ensures
        spec_decode("string"@, len, payload) == spec_str(payload),
        spec_decode("error"@, len, payload) == spec_err(payload),
        spec_decode("bool"@, len, payload) == spec_bool(payload),
        spec_decode("int"@, len, payload) == spec_int(payload),
        spec_decode("float"@, len, payload) == spec_float(payload),
        spec_decode("null"@, len, payload) == Ok::<Value, ErrorView>(Value::Nil),
        spec_decode("u8v"@, len, payload) == spec_u8v(payload),
        spec_decode("s8v"@, len, payload) == spec_u8v(payload),
        spec_decode("u16v"@, len, payload) == spec_u16v(payload),
        spec_decode("s16v"@, len, payload) == spec_s16v(payload),
        spec_decode("u32v"@, len, payload) == spec_u32v(payload),
        spec_decode("s32v"@, len, payload) == spec_s32v(payload),
        spec_decode("c64v"@, len, payload) == spec_c64v(payload),
        spec_decode("list"@, len, payload) == spec_list(len, payload),
{
    reveal_strlit("string");
    reveal_strlit("error");
    reveal_strlit("bool");
    reveal_strlit("int");
    reveal_strlit("float");
    reveal_strlit("null");
    reveal_strlit("u8v");
    reveal_strlit("s8v");
    reveal_strlit("u16v");
    reveal_strlit("s16v");
    reveal_strlit("u32v");
    reveal_strlit("s32v");
    reveal_strlit("c64v");
    reveal_strlit("list");
    assert("bool"@[0] == 'b' && "null"@[0] == 'n' && "list"@[0] == 'l');
    assert("int"@[0] == 'i' && "u8v"@[0] == 'u' && "s8v"@[0] == 's');
    assert("float"@[0] == 'f' && "error"@[0] == 'e');
    assert("u16v"@[0] == 'u' && "u16v"@[1] == '1');
    assert("s16v"@[0] == 's' && "s16v"@[1] == '1');
    assert("u32v"@[0] == 'u' && "u32v"@[1] == '3');
    assert("s32v"@[0] == 's' && "s32v"@[1] == '3');
    assert("c64v"@[0] == 'c');
    assert("string"@.len() == 6 && "s8v"@.len() == 3 && "u8v"@.len() == 3 && "int"@.len() == 3);
}

/// Decodes the payload of a response whose array header announced `len`
/// elements and whose first element was `tag`.
pub fn decode(tag: String, len: u32, payload: &[u8]) -> (r: Result<Types, Error>)
    ensures
        outcome(r) == spec_decode(tag@, len, payload@),
{
    if tag_is(&tag, "string") {
        unpack_str(payload)
    } else if tag_is(&tag, "error") {
        unpack_err(payload)
    } else if tag_is(&tag, "bool") {
        unpack_bool(payload)
    } else if tag_is(&tag, "int") {
        unpack_int(payload)
    } else if tag_is(&tag, "float") {
        unpack_float(payload)
    } else if tag_is(&tag, "null") {
        unpack_nil()
    } else if tag_is(&tag, "u8v") || tag_is(&tag, "s8v") {
        unpack_u8v(payload)
    } else if tag_is(&tag, "u16v") {
        unpack_u16v(payload)
    } else if tag_is(&tag, "s16v") {
        unpack_s16v(payload)
    } else if tag_is(&tag, "u32v") {
        unpack_u32v(payload)
    } else if tag_is(&tag, "s32v") {
        unpack_s32v(payload)
    } else if tag_is(&tag, "c64v") {
        unpack_c64v(payload)
    } else if tag_is(&tag, "list") {
        unpack_list(payload, len)
    } else {
        Err(Error::UnknownType(tag))
    }
}

/// Decodes one response. The response is an array whose first element is the
/// tag; the tag selects the variant. An `error` response comes back as the
/// failure [`Error::Server`] with the server's text, never as a value; a header
/// that announces no element, an unknown tag and a payload that cannot be
/// read each give their own failure. No value is returned in part.
pub fn unpack(buf: &[u8]) -> (r: Result<Types, Error>)
    ensures
        outcome(r) == spec_unpack(buf@),
{
    match read_array_len(buf) {
        None => Err(Error::Malformed),
        Some((len, rest)) => {
            if len < 1 {
                return Err(Error::InvalidLength);
            }
            match read_str(rest) {
                None => Err(Error::Malformed),
                Some((tag, payload)) => decode(tag, len, payload),
            }
        },
    }
}

/// A decode never yields the `Error` variant as a value: the text of an
/// `error` response is only ever the failure of the decode.
pub proof fn lemma_error_is_failure(buf: Seq<u8>)
    ensures
        spec_unpack(buf) matches Ok(v) ==> !(v is Error),
        forall|tag: Seq<char>, len: u32, payload: Seq<u8>|
            (#[trigger] spec_decode(tag, len, payload)) matches Ok(v) ==> !(v is Error),
{
}

} // verus!
