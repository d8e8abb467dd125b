//! The value model: the two scalar types, nullable values, three-valued
//! comparison and truth, and the coercions between strings and integers.

use std::borrow::Cow;
use vstd::prelude::*;
use vstd::std_specs::iter::IteratorSpec;
use vstd::string::StringExecFns;
use vstd::utf8::{decode_utf8, encode_utf8, valid_utf8};
use crate::ast::ComparisonOp;
use crate::error::{internal, Error, ErrorView};

verus! {

broadcast use vstd::string::group_string_axioms;

/// The machine integer that an `Integer` column stores.
pub type IntegerStorage = i64;

/// The type of a column.
#[derive(Debug, Clone, Copy, PartialEq, Eq, Structural)]
pub enum Type {
    Integer,
    String,
}

/// The contents of a value that is not null.
#[derive(Debug, Clone, PartialEq, Eq, Hash)]
pub enum TypeContents {
    Integer(IntegerStorage),
    String(String),
}

/// What typed contents hold: the integer, or the string's characters.
pub enum TypeContentsView {
    Integer(IntegerStorage),
    String(Seq<char>),
}

impl View for TypeContents {
    type V = TypeContentsView;

    open spec fn view(&self) -> TypeContentsView {
        match *self {
            TypeContents::Integer(i) => TypeContentsView::Integer(i),
            TypeContents::String(s) => TypeContentsView::String(s@),
        }
    }
}

/// A value: null, or typed contents.
#[derive(Debug, Clone, PartialEq, Eq, Hash)]
pub enum Value {
    Null,
    TypedValue(TypeContents),
}

/// What a value holds.
pub enum ValueView {
    Null,
    TypedValue(TypeContentsView),
}

impl View for Value {
    type V = ValueView;

    open spec fn view(&self) -> ValueView {
        match *self {
            Value::Null => ValueView::Null,
            Value::TypedValue(t) => ValueView::TypedValue(t@),
        }
    }
}

impl DeepView for Value {
    type V = ValueView;

    open spec fn deep_view(&self) -> ValueView {
        self@
    }
}

/// The outcome of comparing two values.
#[derive(Debug, Clone, Copy, PartialEq, Eq, Structural)]
pub enum Comparison {
    Unknown,
    LessThan,
    Equal,
    GreaterThan,
}

/// A three-valued truth value.
#[derive(Debug, Clone, Copy, PartialEq, Eq, Hash, Structural)]
pub enum TruthValue {
    True,
    False,
    Unknown,
}

// ---------------------------------------------------------------------------
// Strings to integers
// ---------------------------------------------------------------------------

/// The characters that count as white space: those with the Unicode
/// property `White_Space`.
pub open spec fn is_white_space(c: char) -> bool {
    let u = c as u32;
    (0x09 <= u <= 0x0D) || u == 0x20 || u == 0x85 || u == 0xA0 || u == 0x1680 || (0x2000 <= u
        <= 0x200A) || u == 0x2028 || u == 0x2029 || u == 0x202F || u == 0x205F || u == 0x3000
}

/// Whether `c` is one of the ASCII digits.
pub open spec fn is_digit(c: char) -> bool {
    0x30 <= c as u32 <= 0x39
}

/// The number that the ASCII digit `c` stands for.
pub open spec fn digit_value(c: char) -> nat {
    (c as u32 - 0x30) as nat
}

/// What is left of `s` once its leading white space is gone.
pub open spec fn skip_white_space(s: Seq<char>) -> Seq<char>
    decreases s.len(),
{
    if s.len() > 0 && is_white_space(s[0]) {
        skip_white_space(s.drop_first())
    } else {
        s
    }
}

/// The decimal number that the digits at the start of `s` spell, after the
/// digits that already gave `so_far`.
pub open spec fn leading_digits_value(s: Seq<char>, so_far: nat) -> nat
    decreases s.len(),
{
    if s.len() > 0 && is_digit(s[0]) {
        leading_digits_value(s.drop_first(), so_far * 10 + digit_value(s[0]))
    } else {
        so_far
    }
}

/// The integer that a string stands for under the tolerant rule: leading
/// white space is skipped, one `-` may follow, then the digits up to the
/// first other character count; no digits give 0, and a number out of range
/// gives the nearest bound.
pub open spec fn spec_string_to_int(s: Seq<char>) -> IntegerStorage {
    let t = skip_white_space(s);
    let negative = t.len() > 0 && t[0] == '-';
    let digits = if negative {
        t.drop_first()
    } else {
        t
    };
    let magnitude = leading_digits_value(digits, 0);
    if magnitude > i64::MAX {
        if negative {
            i64::MIN
        } else {
            i64::MAX
        }
    } else if negative {
        (-(magnitude as int)) as i64
    } else {
        magnitude as i64
    }
}

/// Digits read later only make the number larger.
pub proof fn lemma_leading_digits_grow(s: Seq<char>, so_far: nat)
    ensures
        leading_digits_value(s, so_far) >= so_far,
    decreases s.len(),
{
    if s.len() > 0 && is_digit(s[0]) {
        lemma_leading_digits_grow(s.drop_first(), so_far * 10 + digit_value(s[0]));
    }
}

fn char_is_white_space(c: char) -> (b: bool)
    ensures
        b == is_white_space(c),
{
    let u: u32 = c as u32;
    (0x09 <= u && u <= 0x0D) || u == 0x20 || u == 0x85 || u == 0xA0 || u == 0x1680 || (0x2000 <= u
        && u <= 0x200A) || u == 0x2028 || u == 0x2029 || u == 0x202F || u == 0x205F || u == 0x3000
}

/// Reads an integer from a string by the tolerant rule.
pub fn string_to_int(string: &str) -> (result: IntegerStorage)
    ensures
        result == spec_string_to_int(string@),
{
    let mut characters = string.chars();
    let ghost mut rest: Seq<char> = string@;
    // Leading white space, up to the first other character.
    let mut first: Option<char> = None;
    loop
        invariant_except_break
            characters.remaining() == rest,
            skip_white_space(string@) == skip_white_space(rest),
            first is None,
        ensures
            characters.remaining() == rest,
            match first {
                Some(c) => skip_white_space(string@).len() > 0 && skip_white_space(string@)[0] == c
                    && rest == skip_white_space(string@).drop_first(),
                None => skip_white_space(string@).len() == 0,
            },
        decreases rest.len(),
    {
        match characters.next() {
            Some(c) => {
                if !char_is_white_space(c) {
                    first = Some(c);
                    proof {
                        rest = rest.drop_first();
                    }
                    break ;
                }
                proof {
                    rest = rest.drop_first();
                }
            },
            None => {
                break ;
            },
        }
    }
    let ghost trimmed = skip_white_space(string@);
    let first_char: char = match first {
        Some(c) => c,
        None => {
            return 0;
        },
    };
    let negative: bool = first_char == '-';
    let mut result: IntegerStorage = 0;
    let ghost digits: Seq<char> = if negative {
        trimmed.drop_first()
    } else {
        trimmed
    };
    let ghost magnitude = leading_digits_value(digits, 0);
    let first_code: u32 = first_char as u32;
    if !negative {
        if 0x30 <= first_code && first_code <= 0x39 {
            result = (first_code - 0x30) as i64;
        } else {
            return 0;
        }
    }
    loop
        invariant_except_break
            characters.remaining() == rest,
            leading_digits_value(rest, result as nat) == magnitude,
        invariant
            0 <= result,
            magnitude == leading_digits_value(digits, 0),
            spec_string_to_int(string@) == if magnitude > i64::MAX {
                if negative {
                    i64::MIN
                } else {
                    i64::MAX
                }
            } else if negative {
                (-(magnitude as int)) as i64
            } else {
                magnitude as i64
            },
        ensures
            result as nat == magnitude,
        decreases rest.len(),
    {
        match characters.next() {
            Some(c) => {
                let code: u32 = c as u32;
                if 0x30 <= code && code <= 0x39 {
                    let digit: i64 = (code - 0x30) as i64;
                    proof {
                        lemma_leading_digits_grow(
                            rest.drop_first(),
                            (result as nat) * 10 + digit_value(c),
                        );
                    }
                    if result > (i64::MAX - digit) / 10 {
                        return if negative {
                            i64::MIN
                        } else {
                            i64::MAX
                        };
                    }
                    result = result * 10 + digit;
                    proof {
                        rest = rest.drop_first();
                    }
                } else {
                    break ;
                }
            },
            None => {
                break ;
            },
        }
    }
    if negative {
        -result
    } else {
        result
    }
}

// ---------------------------------------------------------------------------
// Integers to strings
// ---------------------------------------------------------------------------

/// The character that writes the digit `d`.
pub open spec fn digit_char(d: nat) -> char {
    if d == 0 {
        '0'
    } else if d == 1 {
        '1'
    } else if d == 2 {
        '2'
    } else if d == 3 {
        '3'
    } else if d == 4 {
        '4'
    } else if d == 5 {
        '5'
    } else if d == 6 {
        '6'
    } else if d == 7 {
        '7'
    } else if d == 8 {
        '8'
    } else {
        '9'
    }
}

/// The decimal digits of `n`, without leading zeros.
pub open spec fn nat_to_digits(n: nat) -> Seq<char>
    decreases n,
{
    if n < 10 {
        seq![digit_char(n)]
    } else {
        nat_to_digits(n / 10).push(digit_char(n % 10))
    }
}

/// An integer in decimal, with a leading `-` where it is negative.
pub open spec fn spec_int_to_string(i: IntegerStorage) -> Seq<char> {
    if i < 0 {
        seq!['-'] + nat_to_digits((-(i as int)) as nat)
    } else {
        nat_to_digits(i as nat)
    }
}

fn digit_str(d: u64) -> (s: &'static str)
    requires
        d < 10,
    ensures
        s@ == seq![digit_char(d as nat)],
{
    proof {
        reveal_strlit("0");
        reveal_strlit("1");
        reveal_strlit("2");
        reveal_strlit("3");
        reveal_strlit("4");
        reveal_strlit("5");
        reveal_strlit("6");
        reveal_strlit("7");
        reveal_strlit("8");
        reveal_strlit("9");
    }
    let s: &'static str = if d == 0 {
        "0"
    } else if d == 1 {
        "1"
    } else if d == 2 {
        "2"
    } else if d == 3 {
        "3"
    } else if d == 4 {
        "4"
    } else if d == 5 {
        "5"
    } else if d == 6 {
        "6"
    } else if d == 7 {
        "7"
    } else if d == 8 {
        "8"
    } else {
        "9"
    };
    assert(s@ =~= seq![digit_char(d as nat)]);
    s
}

/// Writes a number in decimal.
pub fn nat_to_string(n: u64) -> (s: String)
    ensures
        s@ == nat_to_digits(n as nat),
    decreases n,
{
    if n < 10 {
        digit_str(n).to_owned()
    } else {
        let mut s = nat_to_string(n / 10);
        s.append(digit_str(n % 10));
        s
    }
}

/// Writes an integer in decimal, with a leading `-` where it is negative.
pub fn int_to_string(i: IntegerStorage) -> (s: String)
    ensures
        s@ == spec_int_to_string(i),
{
    if i < 0 {
        let magnitude: u64 = (-(i + 1)) as u64 + 1;
        let mut s = "-".to_owned();
        proof {
            reveal_strlit("-");
            assert("-"@ =~= seq!['-']);
        }
        let digits = nat_to_string(magnitude);
        s.append(digits.as_str());
        s
    } else {
        nat_to_string(i as u64)
    }
}

// ---------------------------------------------------------------------------
// Bytes
// ---------------------------------------------------------------------------

/// The eight bytes of an integer, most significant first, in two's
/// complement.
pub open spec fn integer_be_bytes(i: IntegerStorage) -> Seq<u8> {
    let u = i as u64;
    seq![
        (u >> 56) as u8,
        (u >> 48) as u8,
        (u >> 40) as u8,
        (u >> 32) as u8,
        (u >> 24) as u8,
        (u >> 16) as u8,
        (u >> 8) as u8,
        u as u8,
    ]
}

/// The integer whose eight bytes, most significant first, are `b`.
pub open spec fn integer_from_be_bytes(b: Seq<u8>) -> IntegerStorage
    recommends
        b.len() == 8,
{
    (((b[0] as u64) << 56) | ((b[1] as u64) << 48) | ((b[2] as u64) << 40) | ((b[3] as u64) << 32)
        | ((b[4] as u64) << 24) | ((b[5] as u64) << 16) | ((b[6] as u64) << 8)
        | (b[7] as u64)) as i64
}

/// Reading the bytes of an integer gives the integer back.
pub proof fn lemma_integer_bytes_round_trip(i: IntegerStorage)
    ensures
        integer_be_bytes(i).len() == 8,
        integer_from_be_bytes(integer_be_bytes(i)) == i,
{
    let u = i as u64;
    assert((((((u >> 56) as u8) as u64) << 56) | ((((u >> 48) as u8) as u64) << 48) | ((((u >> 40)
        as u8) as u64) << 40) | ((((u >> 32) as u8) as u64) << 32) | ((((u >> 24) as u8) as u64)
        << 24) | ((((u >> 16) as u8) as u64) << 16) | ((((u >> 8) as u8) as u64) << 8) | ((u
        as u8) as u64)) == u) by (bit_vector);
    assert((i as u64) as i64 == i) by (bit_vector);
}

/// Writing the integer read from eight bytes gives the bytes back.
pub proof fn lemma_bytes_integer_round_trip(b: Seq<u8>)
    requires
        b.len() == 8,
    ensures
        integer_be_bytes(integer_from_be_bytes(b)) == b,
{
    let (b0, b1, b2, b3, b4, b5, b6, b7) = (b[0], b[1], b[2], b[3], b[4], b[5], b[6], b[7]);
    let u = ((b0 as u64) << 56) | ((b1 as u64) << 48) | ((b2 as u64) << 40) | ((b3 as u64) << 32)
        | ((b4 as u64) << 24) | ((b5 as u64) << 16) | ((b6 as u64) << 8) | (b7 as u64);
    assert((u as i64) as u64 == u) by (bit_vector);
    assert(u == ((b0 as u64) << 56) | ((b1 as u64) << 48) | ((b2 as u64) << 40) | ((b3 as u64)
        << 32) | ((b4 as u64) << 24) | ((b5 as u64) << 16) | ((b6 as u64) << 8) | (b7 as u64) ==> (
    u >> 56) as u8 == b0 && (u >> 48) as u8 == b1 && (u >> 40) as u8 == b2 && (u >> 32) as u8 == b3
        && (u >> 24) as u8 == b4 && (u >> 16) as u8 == b5 && (u >> 8) as u8 == b6 && u as u8
        == b7) by (bit_vector);
    assert(integer_be_bytes(integer_from_be_bytes(b)) =~= b);
}

/// The eight bytes of an integer, most significant first.
pub fn encode_integer(i: IntegerStorage) -> (bytes: Vec<u8>)
    ensures
        bytes@ == integer_be_bytes(i),
{
    let u: u64 = i as u64;
    let mut bytes: Vec<u8> = Vec::with_capacity(8);
    bytes.push((u >> 56) as u8);
    bytes.push((u >> 48) as u8);
    bytes.push((u >> 40) as u8);
    bytes.push((u >> 32) as u8);
    bytes.push((u >> 24) as u8);
    bytes.push((u >> 16) as u8);
    bytes.push((u >> 8) as u8);
    bytes.push(u as u8);
    assert(bytes@ =~= integer_be_bytes(i));
    bytes
}

/// The integer whose eight bytes, most significant first, are `data`.
pub fn decode_integer(data: &[u8]) -> (i: IntegerStorage)
    requires
        data@.len() == 8,
    ensures
        i == integer_from_be_bytes(data@),
{
    let u: u64 = ((data[0] as u64) << 56) | ((data[1] as u64) << 48) | ((data[2] as u64) << 40) | ((
    data[3] as u64) << 32) | ((data[4] as u64) << 24) | ((data[5] as u64) << 16) | ((data[6] as u64)
        << 8) | (data[7] as u64);
    u as i64
}

/// `String::from_utf8` on a copy of the bytes: a string exactly when the
/// bytes are valid UTF-8, and then the string that they encode.
#[verifier::external_body]
fn string_from_utf8(data: &[u8]) -> (decoded: Option<String>)
    ensures
        decoded is Some <==> valid_utf8(data@),
        decoded matches Some(s) ==> s@ == decode_utf8(data@),
{
    String::from_utf8(data.to_vec()).ok()
}

// ---------------------------------------------------------------------------
// Type
// ---------------------------------------------------------------------------

impl Type {
    /// How many bytes a value of this type takes, where that is fixed.
    pub open spec fn spec_size(self) -> Option<usize> {
        match self {
            Type::Integer => Some(8usize),
            Type::String => None,
        }
    }

    /// What the bytes `data` hold as a value of this type, if anything.
    pub open spec fn spec_decode(self, data: Seq<u8>) -> Option<TypeContentsView> {
        match self {
            Type::Integer => if data.len() == 8 {
                Some(TypeContentsView::Integer(integer_from_be_bytes(data)))
            } else {
                None
            },
            Type::String => if valid_utf8(data) {
                Some(TypeContentsView::String(decode_utf8(data)))
            } else {
                None
            },
        }
    }

    /// How many bytes a value of this type takes: 8 for an integer, not
    /// fixed for a string.
    pub fn size(&self) -> (size: Option<usize>)
        ensures
            size == self.spec_size(),
    {
        match self {
            Type::Integer => Some(8),
            Type::String => None,
        }
    }

    /// Reads a value of this type from its bytes. Eight bytes give an
    /// integer and valid UTF-8 gives a string; anything else is an internal
    /// error.
    pub fn decode(&self, data: &[u8]) -> (result: Result<TypeContents, Error>)
        ensures
            match result {
                Ok(contents) => self.spec_decode(data@) == Some(contents@),
                Err(e) => self.spec_decode(data@) is None && e@ == ErrorView::Internal,
            },
    {
        match self {
            Type::Integer => {
                if data.len() == 8 {
                    Ok(TypeContents::Integer(decode_integer(data)))
                } else {
                    Err(internal("Incorrect number of bytes of Integer Decode"))
                }
            },
            Type::String => {
                match string_from_utf8(data) {
                    Some(s) => Ok(TypeContents::String(s)),
                    None => Err(internal("Could not decode bytes to string")),
                }
            },
        }
    }

    /// The contents of this type that a string stands for.
    pub fn get_contents_from_string(&self, data: String) -> (contents: TypeContents)
        ensures
            contents@ == spec_cast(TypeContentsView::String(data@), *self),
    {
        match self {
            Type::Integer => TypeContents::Integer(string_to_int(data.as_str())),
            Type::String => TypeContents::String(data),
        }
    }

    /// The contents of a value cast to this type; nothing for null.
    pub fn resolve_value(&self, data: Value) -> (contents: Option<TypeContents>)
        ensures
            match data@ {
                ValueView::Null => contents is None,
                ValueView::TypedValue(t) => contents matches Some(c) && c@ == spec_cast(t, *self),
            },
    {
        match data {
            Value::Null => None,
            Value::TypedValue(t) => Some(t.cast(self)),
        }
    }

    /// The name of the type.
    pub fn name(&self) -> (name: &'static str)
        ensures
            name@ == match *self {
                Type::Integer => "Integer"@,
                Type::String => "String"@,
            },
    {
        match self {
            Type::Integer => "Integer",
            Type::String => "String",
        }
    }
}

// ---------------------------------------------------------------------------
// TypeContents
// ---------------------------------------------------------------------------

/// The integer that contents stand for: the integer itself, or the one that
/// the string gives under the tolerant rule.
pub open spec fn spec_to_integer(contents: TypeContentsView) -> IntegerStorage {
    match contents {
        TypeContentsView::Integer(i) => i,
        TypeContentsView::String(s) => spec_string_to_int(s),
    }
}

/// The string that contents stand for: the string itself, or the integer in
/// decimal.
pub open spec fn spec_to_string(contents: TypeContentsView) -> Seq<char> {
    match contents {
        TypeContentsView::Integer(i) => spec_int_to_string(i),
        TypeContentsView::String(s) => s,
    }
}

/// Contents cast to a type.
pub open spec fn spec_cast(contents: TypeContentsView, t: Type) -> TypeContentsView {
    match t {
        Type::Integer => TypeContentsView::Integer(spec_to_integer(contents)),
        Type::String => TypeContentsView::String(spec_to_string(contents)),
    }
}

/// The bytes that store contents: an integer's eight bytes, a string's
/// UTF-8.
pub open spec fn spec_encode(contents: TypeContentsView) -> Seq<u8> {
    match contents {
        TypeContentsView::Integer(i) => integer_be_bytes(i),
        TypeContentsView::String(s) => encode_utf8(s),
    }
}

/// The type of contents.
pub open spec fn spec_type_of(contents: TypeContentsView) -> Type {
    match contents {
        TypeContentsView::Integer(_) => Type::Integer,
        TypeContentsView::String(_) => Type::String,
    }
}

/// Contents written as bytes and read back as their own type are unchanged.
pub proof fn lemma_contents_round_trip(contents: TypeContentsView)
    ensures
        spec_type_of(contents).spec_decode(spec_encode(contents)) == Some(contents),
{
    match contents {
        TypeContentsView::Integer(i) => {
            lemma_integer_bytes_round_trip(i);
        },
        TypeContentsView::String(s) => {
            vstd::utf8::encode_utf8_valid_utf8(s);
            vstd::utf8::encode_utf8_decode_utf8(s);
        },
    }
}

impl TypeContents {
    /// The bytes that store these contents, and their type.
    pub fn encode(&self) -> (result: (Cow<'_, [u8]>, Type))
        ensures
            result.0@ == spec_encode(self@),
            result.1 == spec_type_of(self@),
    {
        match self {
            TypeContents::Integer(i) => (Cow::Owned(encode_integer(*i)), Type::Integer),
            TypeContents::String(s) => (Cow::Borrowed(s.as_str().as_bytes()), Type::String),
        }
    }

    /// The integer that these contents stand for.
    pub fn to_integer(&self) -> (i: IntegerStorage)
        ensures
            i == spec_to_integer(self@),
    {
        match self {
            TypeContents::Integer(i) => *i,
            TypeContents::String(s) => string_to_int(s.as_str()),
        }
    }

    /// The string that these contents stand for.
    pub fn into_string(self) -> (s: String)
        ensures
            s@ == spec_to_string(self@),
    {
        match self {
            TypeContents::String(s) => s,
            TypeContents::Integer(i) => int_to_string(i),
        }
    }

    /// These contents cast to the type `t`.
    pub fn cast(self, t: &Type) -> (contents: Self)
        ensures
            contents@ == spec_cast(self@, *t),
    {
        match t {
            Type::Integer => TypeContents::Integer(self.to_integer()),
            Type::String => TypeContents::String(self.into_string()),
        }
    }

    /// Whether these contents count as true: their integer is positive.
    pub fn is_true(&self) -> (b: bool)
        ensures
            b == (spec_to_integer(self@) > 0),
    {
        self.to_integer() > 0
    }

    /// The type of these contents.
    pub fn get_type(&self) -> (t: Type)
        ensures
            t == spec_type_of(self@),
    {
        match self {
            TypeContents::Integer(_) => Type::Integer,
            TypeContents::String(_) => Type::String,
        }
    }

    /// A copy of these contents.
    pub fn duplicate(&self) -> (copy: Self)
        ensures
            copy == *self,
    {
        match self {
            TypeContents::Integer(i) => TypeContents::Integer(*i),
            TypeContents::String(s) => TypeContents::String(s.clone()),
        }
    }
}

// ---------------------------------------------------------------------------
// Comparison
// ---------------------------------------------------------------------------

/// How two integers compare.
pub open spec fn compare_integers(a: IntegerStorage, b: IntegerStorage) -> Comparison {
    if a < b {
        Comparison::LessThan
    } else if a == b {
        Comparison::Equal
    } else {
        Comparison::GreaterThan
    }
}

/// How two byte strings compare: by the first byte in which they differ,
/// and a proper prefix is less.
pub open spec fn compare_bytes(a: Seq<u8>, b: Seq<u8>) -> Comparison
    decreases a.len(),
{
    if a.len() == 0 {
        if b.len() == 0 {
            Comparison::Equal
        } else {
            Comparison::LessThan
        }
    } else if b.len() == 0 {
        Comparison::GreaterThan
    } else if a[0] < b[0] {
        Comparison::LessThan
    } else if a[0] > b[0] {
        Comparison::GreaterThan
    } else {
        compare_bytes(a.drop_first(), b.drop_first())
    }
}

/// How two values compare. Null compares as unknown with everything; two
/// integers compare as numbers and two strings by their UTF-8 bytes; a
/// string against an integer is read as an integer first.
pub open spec fn spec_compare(a: ValueView, b: ValueView) -> Comparison {
    match (a, b) {
        (ValueView::Null, _) => Comparison::Unknown,
        (_, ValueView::Null) => Comparison::Unknown,
        (
            ValueView::TypedValue(TypeContentsView::String(x)),
            ValueView::TypedValue(TypeContentsView::String(y)),
        ) => compare_bytes(encode_utf8(x), encode_utf8(y)),
        (ValueView::TypedValue(x), ValueView::TypedValue(y)) => compare_integers(
            spec_to_integer(x),
            spec_to_integer(y),
        ),
    }
}

/// Byte strings compare as equal exactly when they are equal.
pub proof fn lemma_compare_bytes_equal(a: Seq<u8>, b: Seq<u8>)
    ensures
        compare_bytes(a, b) == Comparison::Equal <==> a == b,
        compare_bytes(a, b) != Comparison::Unknown,
    decreases a.len(),
{
    if a.len() > 0 && b.len() > 0 {
        lemma_compare_bytes_equal(a.drop_first(), b.drop_first());
        if a[0] == b[0] && a.drop_first() == b.drop_first() {
            assert(a =~= seq![a[0]] + a.drop_first());
            assert(b =~= seq![b[0]] + b.drop_first());
        }
    } else if a.len() == 0 && b.len() == 0 {
        assert(a =~= b);
    }
}

/// Two strings compare as equal exactly when they are the same string.
pub proof fn lemma_compare_strings_equal(x: Seq<char>, y: Seq<char>)
    ensures
        compare_bytes(encode_utf8(x), encode_utf8(y)) == Comparison::Equal <==> x == y,
{
    lemma_compare_bytes_equal(encode_utf8(x), encode_utf8(y));
    vstd::utf8::encode_utf8_decode_utf8(x);
    vstd::utf8::encode_utf8_decode_utf8(y);
}

fn compare_byte_slices(a: &[u8], b: &[u8]) -> (result: Comparison)
    ensures
        result == compare_bytes(a@, b@),
{
    let mut i: usize = 0;
    assert(a@.skip(0) =~= a@ && b@.skip(0) =~= b@);
    while i < a.len() && i < b.len()
        invariant
            i <= a@.len(),
            i <= b@.len(),
            compare_bytes(a@, b@) == compare_bytes(a@.skip(i as int), b@.skip(i as int)),
        decreases a@.len() - i,
    {
        proof {
            assert(a@.skip(i as int).drop_first() =~= a@.skip(i + 1));
            assert(b@.skip(i as int).drop_first() =~= b@.skip(i + 1));
        }
        if a[i] < b[i] {
            return Comparison::LessThan;
        }
        if a[i] > b[i] {
            return Comparison::GreaterThan;
        }
        i += 1;
    }
    if i < b.len() {
        Comparison::LessThan
    } else if i < a.len() {
        Comparison::GreaterThan
    } else {
        Comparison::Equal
    }
}

impl Comparison {
    /// What the comparison makes of the operator `op`.
    pub open spec fn spec_holds(self, op: ComparisonOp) -> bool {
        match op {
            ComparisonOp::Eq => self == Comparison::Equal,
            ComparisonOp::NotEq => self == Comparison::GreaterThan || self == Comparison::LessThan,
            ComparisonOp::Gt => self == Comparison::GreaterThan,
            ComparisonOp::Lt => self == Comparison::LessThan,
            ComparisonOp::GtEq => self == Comparison::Equal || self == Comparison::GreaterThan,
            ComparisonOp::LtEq => self == Comparison::Equal || self == Comparison::LessThan,
        }
    }

    /// The value of `a op b` where `a` and `b` compare like this: null for
    /// unknown, else 1 where the operator holds and 0 where it does not.
    pub open spec fn spec_get_value(self, op: ComparisonOp) -> ValueView {
        if self == Comparison::Unknown {
            ValueView::Null
        } else {
            spec_bool_value(self.spec_holds(op))
        }
    }

    /// The value of `a op b` where `a` and `b` compare like this.
    pub fn get_value(&self, op: &ComparisonOp) -> (value: Value)
        ensures
            value@ == self.spec_get_value(*op),
    {
        if matches!(self, Comparison::Unknown) {
            return Value::Null;
        }
        let holds: bool = match op {
            ComparisonOp::Eq => matches!(self, Comparison::Equal),
            ComparisonOp::NotEq => matches!(self, Comparison::GreaterThan | Comparison::LessThan),
            ComparisonOp::Gt => matches!(self, Comparison::GreaterThan),
            ComparisonOp::Lt => matches!(self, Comparison::LessThan),
            ComparisonOp::GtEq => matches!(self, Comparison::Equal | Comparison::GreaterThan),
            ComparisonOp::LtEq => matches!(self, Comparison::Equal | Comparison::LessThan),
        };
        Value::from(holds)
    }

    /// Whether the two values are known to be equal.
    pub fn is_equal(&self) -> (b: bool)
        ensures
            b == (*self == Comparison::Equal),
    {
        matches!(self, Comparison::Equal)
    }

    /// Whether the two values are equal or one of them is null.
    pub fn is_equal_or_null(&self) -> (b: bool)
        ensures
            b == (*self == Comparison::Equal || *self == Comparison::Unknown),
    {
        matches!(self, Comparison::Equal | Comparison::Unknown)
    }
}

// ---------------------------------------------------------------------------
// Truth
// ---------------------------------------------------------------------------

/// The value that stands for a boolean: the integer 1 or 0.
pub open spec fn spec_bool_value(b: bool) -> ValueView {
    ValueView::TypedValue(
        TypeContentsView::Integer(
            if b {
                1
            } else {
                0
            },
        ),
    )
}

/// The truth of a value: unknown for null, else whether its integer is
/// positive.
pub open spec fn spec_truth(v: ValueView) -> TruthValue {
    match v {
        ValueView::Null => TruthValue::Unknown,
        ValueView::TypedValue(t) => if spec_to_integer(t) > 0 {
            TruthValue::True
        } else {
            TruthValue::False
        },
    }
}

/// Whether a value passes as a predicate: unknown does not.
pub open spec fn spec_is_true(v: ValueView) -> bool {
    spec_truth(v) == TruthValue::True
}

/// The value that stands for a truth value: 1, 0 or null.
pub open spec fn spec_truth_value(t: TruthValue) -> ValueView {
    match t {
        TruthValue::True => spec_bool_value(true),
        TruthValue::False => spec_bool_value(false),
        TruthValue::Unknown => ValueView::Null,
    }
}

impl TruthValue {
    /// Kleene conjunction.
    pub open spec fn spec_and(self, other: Self) -> Self {
        if self == TruthValue::False || other == TruthValue::False {
            TruthValue::False
        } else if self == TruthValue::True && other == TruthValue::True {
            TruthValue::True
        } else {
            TruthValue::Unknown
        }
    }

    /// Kleene disjunction.
    pub open spec fn spec_or(self, other: Self) -> Self {
        if self == TruthValue::True || other == TruthValue::True {
            TruthValue::True
        } else if self == TruthValue::False && other == TruthValue::False {
            TruthValue::False
        } else {
            TruthValue::Unknown
        }
    }

    /// Conjunction: false as soon as one side is false, true when both are
    /// true, unknown otherwise.
    pub fn and(self, other: Self) -> (result: Self)
        ensures
            result == self.spec_and(other),
    {
        match (self, other) {
            (TruthValue::False, _) => TruthValue::False,
            (_, TruthValue::False) => TruthValue::False,
            (TruthValue::True, TruthValue::True) => TruthValue::True,
            _ => TruthValue::Unknown,
        }
    }

    /// Disjunction: true as soon as one side is true, false when both are
    /// false, unknown otherwise.
    pub fn or(self, other: Self) -> (result: Self)
        ensures
            result == self.spec_or(other),
    {
        match (self, other) {
            (TruthValue::True, _) => TruthValue::True,
            (_, TruthValue::True) => TruthValue::True,
            (TruthValue::False, TruthValue::False) => TruthValue::False,
            _ => TruthValue::Unknown,
        }
    }

    /// The opposite truth value; unknown stays unknown.
    pub fn not(self) -> (result: Self)
        ensures
            result == match self {
                TruthValue::True => TruthValue::False,
                TruthValue::False => TruthValue::True,
                TruthValue::Unknown => TruthValue::Unknown,
            },
    {
        match self {
            TruthValue::True => TruthValue::False,
            TruthValue::False => TruthValue::True,
            TruthValue::Unknown => TruthValue::Unknown,
        }
    }

    /// The value that stands for this truth value: 1, 0 or null.
    pub fn into_value(self) -> (value: Value)
        ensures
            value@ == spec_truth_value(self),
    {
        match self {
            TruthValue::True => Value::TypedValue(TypeContents::Integer(1)),
            TruthValue::False => Value::TypedValue(TypeContents::Integer(0)),
            TruthValue::Unknown => Value::Null,
        }
    }
}

// ---------------------------------------------------------------------------
// Value
// ---------------------------------------------------------------------------

/// A value cast to a type; null stays null.
pub open spec fn spec_cast_value(v: ValueView, t: Type) -> ValueView {
    match v {
        ValueView::Null => ValueView::Null,
        ValueView::TypedValue(c) => ValueView::TypedValue(spec_cast(c, t)),
    }
}

impl Value {
    /// This value cast to the type `t`; null stays null.
    pub fn cast(self, t: &Type) -> (value: Self)
        ensures
            value@ == spec_cast_value(self@, *t),
    {
        match self {
            Value::Null => Value::Null,
            Value::TypedValue(contents) => Value::TypedValue(contents.cast(t)),
        }
    }

    /// This value as a string: nothing for null, the string itself, or the
    /// integer in decimal.
    pub fn cast_string(&self) -> (s: Option<Cow<'_, str>>)
        ensures
            match self@ {
                ValueView::Null => s is None,
                ValueView::TypedValue(t) => s matches Some(c) && c@ == spec_to_string(t),
            },
    {
        match self {
            Value::Null => None,
            Value::TypedValue(TypeContents::String(s)) => Some(Cow::Borrowed(s.as_str())),
            Value::TypedValue(TypeContents::Integer(i)) => Some(Cow::Owned(int_to_string(*i))),
        }
    }

    /// This value as an integer: nothing for null, the integer itself, or
    /// the one that the string gives under the tolerant rule.
    pub fn cast_int(&self) -> (i: Option<IntegerStorage>)
        ensures
            match self@ {
                ValueView::Null => i is None,
                ValueView::TypedValue(t) => i == Some(spec_to_integer(t)),
            },
    {
        match self {
            Value::Null => None,
            Value::TypedValue(t) => Some(t.to_integer()),
        }
    }

    /// The string in this value; an internal error where it holds no string.
    pub fn assume_string(self) -> (result: Result<String, Error>)
        ensures
            match result {
                Ok(s) => self@ == ValueView::TypedValue(TypeContentsView::String(s@)),
                Err(e) => e@ == ErrorView::Internal && !(self@ matches ValueView::TypedValue(
                    TypeContentsView::String(_),
                )),
            },
    {
        match self {
            Value::TypedValue(TypeContents::String(s)) => Ok(s),
            _ => Err(internal("Assumed string, got another value")),
        }
    }

    /// The integer in this value; an internal error where it holds no
    /// integer.
    pub fn assume_integer(self) -> (result: Result<IntegerStorage, Error>)
        ensures
            match result {
                Ok(i) => self@ == ValueView::TypedValue(TypeContentsView::Integer(i)),
                Err(e) => e@ == ErrorView::Internal && !(self@ matches ValueView::TypedValue(
                    TypeContentsView::Integer(_),
                )),
            },
    {
        match self {
            Value::TypedValue(TypeContents::Integer(i)) => Ok(i),
            _ => Err(internal("Assumed integer, got another value")),
        }
    }

    /// Whether this value is null.
    pub fn is_null(&self) -> (b: bool)
        ensures
            b == (self@ == ValueView::Null),
    {
        matches!(self, Value::Null)
    }

    /// The truth of this value: unknown for null, else whether its integer
    /// is positive.
    pub fn get_truth(&self) -> (t: TruthValue)
        ensures
            t == spec_truth(self@),
    {
        match self {
            Value::Null => TruthValue::Unknown,
            Value::TypedValue(contents) => if contents.is_true() {
                TruthValue::True
            } else {
                TruthValue::False
            },
        }
    }

    /// Whether this value passes as a predicate: null does not.
    pub fn is_true(&self) -> (b: bool)
        ensures
            b == spec_is_true(self@),
    {
        match self {
            Value::Null => false,
            Value::TypedValue(t) => t.is_true(),
        }
    }

    /// The conjunction of two values in three-valued logic.
    pub fn and(&self, other: &Self) -> (value: Self)
        ensures
            value@ == spec_truth_value(spec_truth(self@).spec_and(spec_truth(other@))),
    {
        self.get_truth().and(other.get_truth()).into_value()
    }

    /// The disjunction of two values in three-valued logic.
    pub fn or(&self, other: &Self) -> (value: Self)
        ensures
            value@ == spec_truth_value(spec_truth(self@).spec_or(spec_truth(other@))),
    {
        self.get_truth().or(other.get_truth()).into_value()
    }

    /// Whether the two values are equal or one of them is null.
    pub fn equals_or_null(&self, other: &Value) -> (b: bool)
        ensures
            b == (spec_compare(self@, other@) == Comparison::Equal || spec_compare(self@, other@)
                == Comparison::Unknown),
    {
        self.compare(other).is_equal_or_null()
    }

    /// How this value compares with another.
    pub fn compare(&self, other: &Value) -> (result: Comparison)
        ensures
            result == spec_compare(self@, other@),
    {
        match (self, other) {
            (Value::Null, _) => Comparison::Unknown,
            (_, Value::Null) => Comparison::Unknown,
            (Value::TypedValue(TypeContents::String(a)), Value::TypedValue(TypeContents::String(b))) => {
                compare_byte_slices(a.as_str().as_bytes(), b.as_str().as_bytes())
            },
            (Value::TypedValue(a), Value::TypedValue(b)) => {
                let x: IntegerStorage = a.to_integer();
                let y: IntegerStorage = b.to_integer();
                if x < y {
                    Comparison::LessThan
                } else if x == y {
                    Comparison::Equal
                } else {
                    Comparison::GreaterThan
                }
            },
        }
    }

    /// A copy of this value.
    pub fn duplicate(&self) -> (copy: Self)
        ensures
            copy == *self,
    {
        match self {
            Value::Null => Value::Null,
            Value::TypedValue(t) => Value::TypedValue(t.duplicate()),
        }
    }
}

impl Default for Value {
    fn default() -> (value: Self)
        ensures
            value == Value::Null,
    {
        Value::Null
    }
}

impl From<TypeContents> for Value {
    fn from(contents: TypeContents) -> (value: Self) {
        Value::TypedValue(contents)
    }
}

impl vstd::std_specs::convert::FromSpecImpl<TypeContents> for Value {
    open spec fn obeys_from_spec() -> bool {
        true
    }

    open spec fn from_spec(contents: TypeContents) -> Value {
        Value::TypedValue(contents)
    }
}

impl From<String> for Value {
    fn from(s: String) -> (value: Self) {
        Value::TypedValue(TypeContents::String(s))
    }
}

impl vstd::std_specs::convert::FromSpecImpl<String> for Value {
    open spec fn obeys_from_spec() -> bool {
        true
    }

    open spec fn from_spec(s: String) -> Value {
        Value::TypedValue(TypeContents::String(s))
    }
}

impl From<&str> for Value {
    fn from(s: &str) -> (value: Self)
        ensures
            value@ == ValueView::TypedValue(TypeContentsView::String(s@)),
    {
        Value::TypedValue(TypeContents::String(s.to_owned()))
    }
}

impl vstd::std_specs::convert::FromSpecImpl<&str> for Value {
    open spec fn obeys_from_spec() -> bool {
        false
    }

    open spec fn from_spec(s: &str) -> Value {
        Value::Null
    }
}

impl From<IntegerStorage> for Value {
    fn from(i: IntegerStorage) -> (value: Self) {
        Value::TypedValue(TypeContents::Integer(i))
    }
}

impl vstd::std_specs::convert::FromSpecImpl<IntegerStorage> for Value {
    open spec fn obeys_from_spec() -> bool {
        true
    }

    open spec fn from_spec(i: IntegerStorage) -> Value {
        Value::TypedValue(TypeContents::Integer(i))
    }
}

impl From<bool> for Value {
    fn from(b: bool) -> (value: Self) {
        if b {
            Value::TypedValue(TypeContents::Integer(1))
        } else {
            Value::TypedValue(TypeContents::Integer(0))
        }
    }
}

impl vstd::std_specs::convert::FromSpecImpl<bool> for Value {
    open spec fn obeys_from_spec() -> bool {
        true
    }

    open spec fn from_spec(b: bool) -> Value {
        Value::TypedValue(
            TypeContents::Integer(
                if b {
                    1
                } else {
                    0
                },
            ),
        )
    }
}

impl From<TruthValue> for Value {
    fn from(t: TruthValue) -> (value: Self) {
        match t {
            TruthValue::True => Value::TypedValue(TypeContents::Integer(1)),
            TruthValue::False => Value::TypedValue(TypeContents::Integer(0)),
            TruthValue::Unknown => Value::Null,
        }
    }
}

impl vstd::std_specs::convert::FromSpecImpl<TruthValue> for Value {
    open spec fn obeys_from_spec() -> bool {
        true
    }

    open spec fn from_spec(t: TruthValue) -> Value {
        match t {
            TruthValue::True => Value::TypedValue(TypeContents::Integer(1)),
            TruthValue::False => Value::TypedValue(TypeContents::Integer(0)),
            TruthValue::Unknown => Value::Null,
        }
    }
}

} // verus!
