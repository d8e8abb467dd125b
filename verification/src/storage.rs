//! Column schemas and the row codec.
//!
//! A row is one byte string: the fixed-size columns in schema order, eight
//! bytes each; then a directory with one two-byte slot for each
//! variable-size column, holding the offset of its payload or 0 for null;
//! then one presence bit for each fixed-size column; then the payloads of the
//! variable-size columns, back to back.

use indexmap::IndexMap;
use vstd::prelude::*;
use vstd::string::StringExecFns;
use crate::ast::{str_eq, ColumnName, ColumnNameView};
use crate::data_types::{
    spec_cast_value, spec_encode, Type, TypeContents, TypeContentsView, Value, ValueView,
};
use crate::error::{internal, Error, ErrorView, ExecutionError, ExecutionErrorView};
use crate::resolved_expression::{ResolvedColumn, ResolvedColumnView};
use crate::{spec_value_result, TableColumns};

verus! {

/// The longest row that the codec writes: offsets are 16 bits wide.
pub const MAX_ROW_LEN: usize = 65535;

// ---------------------------------------------------------------------------
// The layout of a schema
// ---------------------------------------------------------------------------

/// Whether values of the type take a fixed number of bytes.
pub open spec fn is_sized(t: Type) -> bool {
    t == Type::Integer
}

/// How many of the first `i` columns are of fixed size.
pub open spec fn sized_before(types: Seq<Type>, i: int) -> nat
    decreases i,
{
    if i <= 0 {
        0
    } else {
        sized_before(types, i - 1) + if is_sized(types[i - 1]) {
            1nat
        } else {
            0nat
        }
    }
}

/// How many of the first `i` columns are of variable size.
pub open spec fn unsized_before(types: Seq<Type>, i: int) -> nat
    decreases i,
{
    if i <= 0 {
        0
    } else {
        unsized_before(types, i - 1) + if is_sized(types[i - 1]) {
            0nat
        } else {
            1nat
        }
    }
}

/// Where the directory starts: after the fixed-size section.
pub open spec fn directory_start(types: Seq<Type>) -> int {
    8 * (sized_before(types, types.len() as int) as int)
}

/// Where the presence bits start: after the directory.
pub open spec fn bitmap_start(types: Seq<Type>) -> int {
    directory_start(types) + 2 * unsized_before(types, types.len() as int)
}

/// Where the payloads start: after the presence bits, one byte for every
/// eight fixed-size columns.
pub open spec fn fixed_len(types: Seq<Type>) -> int {
    bitmap_start(types) + (sized_before(types, types.len() as int) + 7) / 8
}

/// Every column is of one kind or the other.
pub proof fn lemma_counts(types: Seq<Type>, i: int)
    requires
        0 <= i <= types.len(),
    ensures
        sized_before(types, i) + unsized_before(types, i) == i,
        sized_before(types, i) <= sized_before(types, types.len() as int),
        unsized_before(types, i) <= unsized_before(types, types.len() as int),
        i < types.len() && is_sized(types[i]) ==> sized_before(types, i) < sized_before(
            types,
            types.len() as int,
        ),
        i < types.len() && !is_sized(types[i]) ==> unsized_before(types, i) < unsized_before(
            types,
            types.len() as int,
        ),
    decreases types.len() - i,
{
    lemma_counts_prefix(types, i);
    if i < types.len() {
        lemma_counts(types, i + 1);
    }
}

proof fn lemma_counts_prefix(types: Seq<Type>, i: int)
    requires
        0 <= i <= types.len(),
    ensures
        sized_before(types, i) + unsized_before(types, i) == i,
    decreases i,
{
    if i > 0 {
        lemma_counts_prefix(types, i - 1);
    }
}

/// The counts of a schema with one more column.
pub proof fn lemma_counts_push(types: Seq<Type>, t: Type, i: int)
    requires
        0 <= i <= types.len(),
    ensures
        sized_before(types.push(t), i) == sized_before(types, i),
        unsized_before(types.push(t), i) == unsized_before(types, i),
    decreases i,
{
    if i > 0 {
        lemma_counts_push(types, t, i - 1);
    }
}

// ---------------------------------------------------------------------------
// What a row holds, as bytes
// ---------------------------------------------------------------------------

/// The values that the first `n` fixed-size columns store, in order. A
/// column stores its value cast to its type.
pub open spec fn sized_values(types: Seq<Type>, values: Seq<ValueView>, n: int) -> Seq<ValueView>
    decreases n,
{
    if n <= 0 {
        Seq::empty()
    } else {
        let rest = sized_values(types, values, n - 1);
        if is_sized(types[n - 1]) {
            rest.push(spec_cast_value(values[n - 1], types[n - 1]))
        } else {
            rest
        }
    }
}

/// The values that the first `n` variable-size columns store, in order.
pub open spec fn unsized_values(types: Seq<Type>, values: Seq<ValueView>, n: int) -> Seq<ValueView>
    decreases n,
{
    if n <= 0 {
        Seq::empty()
    } else {
        let rest = unsized_values(types, values, n - 1);
        if is_sized(types[n - 1]) {
            rest
        } else {
            rest.push(spec_cast_value(values[n - 1], types[n - 1]))
        }
    }
}

/// The bytes of a value: none for null.
pub open spec fn payload(v: ValueView) -> Seq<u8> {
    match v {
        ValueView::Null => Seq::empty(),
        ValueView::TypedValue(c) => spec_encode(c),
    }
}

/// The payloads of the values, back to back.
pub open spec fn payloads(uv: Seq<ValueView>) -> Seq<u8>
    decreases uv.len(),
{
    if uv.len() == 0 {
        Seq::empty()
    } else {
        payloads(uv.drop_last()) + payload(uv.last())
    }
}

/// The directory slot of the variable-size column `m`: 0 for null, else
/// where its payload begins when the payloads begin at `base`.
pub open spec fn slot(uv: Seq<ValueView>, m: int, base: int) -> int {
    if uv[m] is Null {
        0
    } else {
        base + payloads(uv.take(m)).len()
    }
}

/// Byte `j` of the two bytes of `x`, most significant first.
pub open spec fn u16_be(x: int, j: int) -> u8 {
    if j == 0 {
        (x / 256) as u8
    } else {
        (x % 256) as u8
    }
}

/// The number that two bytes spell, most significant first.
pub open spec fn read_u16(row: Seq<u8>, at: int) -> int {
    row[at] as int * 256 + row[at + 1] as int
}

/// Byte `p` of the fixed-size section: a byte of the column's value, or 0
/// where the column is null.
pub open spec fn fixed_byte(sv: Seq<ValueView>, p: int) -> u8 {
    match sv[p / 8] {
        ValueView::Null => 0u8,
        ValueView::TypedValue(c) => spec_encode(c)[p % 8],
    }
}

/// Whether the fixed-size column `k` exists and is not null.
pub open spec fn present(sv: Seq<ValueView>, k: int) -> bool {
    0 <= k < sv.len() && !(sv[k] is Null)
}

/// The byte whose bit `b` is `bits.b`.
pub open spec fn bits_byte(
    b0: bool,
    b1: bool,
    b2: bool,
    b3: bool,
    b4: bool,
    b5: bool,
    b6: bool,
    b7: bool,
) -> u8 {
    (if b0 {
        1u8
    } else {
        0u8
    }) | (if b1 {
        2u8
    } else {
        0u8
    }) | (if b2 {
        4u8
    } else {
        0u8
    }) | (if b3 {
        8u8
    } else {
        0u8
    }) | (if b4 {
        16u8
    } else {
        0u8
    }) | (if b5 {
        32u8
    } else {
        0u8
    }) | (if b6 {
        64u8
    } else {
        0u8
    }) | (if b7 {
        128u8
    } else {
        0u8
    })
}

/// Byte `q` of the presence bits: bit `b` is set exactly when the
/// fixed-size column `8q + b` exists and is not null.
pub open spec fn bitmap_byte(sv: Seq<ValueView>, q: int) -> u8 {
    bits_byte(
        present(sv, 8 * q),
        present(sv, 8 * q + 1),
        present(sv, 8 * q + 2),
        present(sv, 8 * q + 3),
        present(sv, 8 * q + 4),
        present(sv, 8 * q + 5),
        present(sv, 8 * q + 6),
        present(sv, 8 * q + 7),
    )
}

/// Where the payloads begin in a row of these values.
pub open spec fn payload_base(sv: Seq<ValueView>, uv: Seq<ValueView>) -> int {
    8 * (sv.len() as int) + 2 * (uv.len() as int) + (sv.len() as int + 7) / 8
}

/// The part of a row before the payloads.
#[verifier::opaque]
pub open spec fn header(sv: Seq<ValueView>, uv: Seq<ValueView>) -> Seq<u8> {
    Seq::new(
        payload_base(sv, uv) as nat,
        |p: int|
            if p < 8 * sv.len() {
                fixed_byte(sv, p)
            } else if p < 8 * sv.len() + 2 * uv.len() {
                u16_be(
                    slot(uv, (p - 8 * sv.len()) / 2, payload_base(sv, uv)),
                    (p - 8 * sv.len()) % 2,
                )
            } else {
                bitmap_byte(sv, p - 8 * sv.len() - 2 * uv.len())
            },
    )
}

/// The row that stores the fixed-size values `sv` and the variable-size
/// values `uv`.
pub open spec fn spec_encode_values(sv: Seq<ValueView>, uv: Seq<ValueView>) -> Seq<u8> {
    header(sv, uv) + payloads(uv)
}

/// The row that stores `values` under a schema of the column types `types`.
pub open spec fn spec_encode_row(types: Seq<Type>, values: Seq<ValueView>) -> Seq<u8> {
    spec_encode_values(
        sized_values(types, values, types.len() as int),
        unsized_values(types, values, types.len() as int),
    )
}

/// Where the payload of a variable-size column ends: at what the first
/// slot from `position` on that is not 0 says, or at the end of the row
/// where there is none up to the last slot, at `end_position`.
pub open spec fn spec_payload_end(row: Seq<u8>, position: int, end_position: int) -> int
    decreases end_position + 2 - position,
{
    if position > end_position {
        row.len() as int
    } else if read_u16(row, position) != 0 {
        read_u16(row, position)
    } else {
        spec_payload_end(row, position + 2, end_position)
    }
}

/// What a row holds for column `i` of a schema of the column types
/// `types`. A row too short for the schema, a payload that does not lie in
/// the row, and bytes that are no value of the column's type are internal
/// errors.
pub open spec fn spec_decode_column(types: Seq<Type>, row: Seq<u8>, i: int) -> Result<
    ValueView,
    ErrorView,
> {
    if row.len() < fixed_len(types) {
        Err(ErrorView::Internal)
    } else if is_sized(types[i]) {
        let k = sized_before(types, i) as int;
        if row[bitmap_start(types) + k / 8] & (1u8 << ((k % 8) as u8)) == 0 {
            Ok(ValueView::Null)
        } else {
            match types[i].spec_decode(row.subrange(8 * k, 8 * k + 8)) {
                Some(c) => Ok(ValueView::TypedValue(c)),
                None => Err(ErrorView::Internal),
            }
        }
    } else {
        let m = unsized_before(types, i) as int;
        let start = read_u16(row, directory_start(types) + 2 * m);
        let end = spec_payload_end(
            row,
            directory_start(types) + 2 * m + 2,
            bitmap_start(types) - 2,
        );
        if start == 0 {
            Ok(ValueView::Null)
        } else if start <= end <= row.len() {
            match types[i].spec_decode(row.subrange(start, end)) {
                Some(c) => Ok(ValueView::TypedValue(c)),
                None => Err(ErrorView::Internal),
            }
        } else {
            Err(ErrorView::Internal)
        }
    }
}

// ---------------------------------------------------------------------------
// Facts about rows
// ---------------------------------------------------------------------------

/// The values with everything from position `k` on replaced by null.
pub open spec fn null_from(s: Seq<ValueView>, k: int) -> Seq<ValueView> {
    Seq::new(
        s.len(),
        |j: int|
            if j < k {
                s[j]
            } else {
                ValueView::Null
            },
    )
}

/// Column `i` stores its value among those of its kind, at the place that
/// the columns before it leave.
pub proof fn lemma_values_at(types: Seq<Type>, values: Seq<ValueView>, n: int, i: int)
    requires
        0 <= i < n <= types.len(),
    ensures
        sized_values(types, values, n).len() == sized_before(types, n),
        unsized_values(types, values, n).len() == unsized_before(types, n),
        is_sized(types[i]) ==> sized_before(types, i) < sized_before(types, n) && sized_values(
            types,
            values,
            n,
        )[sized_before(types, i) as int] == spec_cast_value(values[i], types[i]),
        !is_sized(types[i]) ==> unsized_before(types, i) < unsized_before(types, n)
            && unsized_values(types, values, n)[unsized_before(types, i) as int] == spec_cast_value(
            values[i],
            types[i],
        ),
    decreases n,
{
    lemma_values_len(types, values, n - 1);
    if i < n - 1 {
        lemma_values_at(types, values, n - 1, i);
    }
}

/// There are as many stored values of each kind as columns of that kind.
pub proof fn lemma_values_len(types: Seq<Type>, values: Seq<ValueView>, n: int)
    requires
        0 <= n <= types.len(),
    ensures
        sized_values(types, values, n).len() == sized_before(types, n),
        unsized_values(types, values, n).len() == unsized_before(types, n),
    decreases n,
{
    if n > 0 {
        lemma_values_len(types, values, n - 1);
    }
}

/// A fixed-size column stores an integer or null.
pub proof fn lemma_sized_values_are_integers(
    types: Seq<Type>,
    values: Seq<ValueView>,
    n: int,
    k: int,
)
    requires
        0 <= n <= types.len(),
        0 <= k < sized_values(types, values, n).len(),
    ensures
        payload(sized_values(types, values, n)[k]).len() == 8 || sized_values(
            types,
            values,
            n,
        )[k] is Null,
        match sized_values(types, values, n)[k] {
            ValueView::Null => true,
            ValueView::TypedValue(c) => c is Integer,
        },
    decreases n,
{
    lemma_values_len(types, values, n - 1);
    if !is_sized(types[n - 1]) || k < sized_values(types, values, n - 1).len() {
        lemma_sized_values_are_integers(types, values, n - 1, k);
    }
}

/// The payloads of fewer values are no longer.
pub proof fn lemma_payloads_take(uv: Seq<ValueView>, m: int)
    requires
        0 <= m <= uv.len(),
    ensures
        payloads(uv.take(m)).len() <= payloads(uv).len(),
        payloads(uv.take(m)) == payloads(uv).subrange(0, payloads(uv.take(m)).len() as int),
        m < uv.len() ==> payloads(uv.take(m + 1)) == payloads(uv.take(m)) + payload(uv[m]),
    decreases uv.len() - m,
{
    if m == uv.len() {
        assert(uv.take(m) =~= uv);
        assert(payloads(uv) =~= payloads(uv).subrange(0, payloads(uv).len() as int));
    } else {
        assert(uv.take(m + 1).drop_last() =~= uv.take(m));
        assert(uv.take(m + 1).last() == uv[m]);
        lemma_payloads_take(uv, m + 1);
        let a = payloads(uv.take(m));
        let b = payloads(uv.take(m + 1));
        let all = payloads(uv);
        assert(a =~= all.subrange(0, a.len() as int)) by {
            assert(b == all.subrange(0, b.len() as int));
            assert forall|j: int| 0 <= j < a.len() implies a[j] == all[j] by {
                assert(b[j] == a[j]);
                assert(b[j] == all.subrange(0, b.len() as int)[j]);
            }
        }
    }
}

/// Null values after position `m` add nothing to the payloads.
pub proof fn lemma_payloads_null_from(uv: Seq<ValueView>, m: int)
    requires
        0 <= m <= uv.len(),
    ensures
        payloads(null_from(uv, m)) == payloads(uv.take(m)),
        forall|j: int| 0 <= j <= m ==> null_from(uv, m).take(j) == uv.take(j),
    decreases uv.len() - m,
{
    assert forall|j: int| 0 <= j <= m implies null_from(uv, m).take(j) == uv.take(j) by {
        assert(null_from(uv, m).take(j) =~= uv.take(j));
    }
    lemma_payloads_nulls(null_from(uv, m), m);
    assert(null_from(uv, m).take(m) =~= uv.take(m));
}

proof fn lemma_payloads_nulls(s: Seq<ValueView>, m: int)
    requires
        0 <= m <= s.len(),
        forall|j: int| m <= j < s.len() ==> s[j] is Null,
    ensures
        payloads(s) == payloads(s.take(m)),
    decreases s.len() - m,
{
    if m == s.len() {
        assert(s.take(m) =~= s);
    } else {
        lemma_payloads_nulls(s, m + 1);
        lemma_payloads_take(s, m);
        assert(payloads(s.take(m + 1)) =~= payloads(s.take(m)));
    }
}

/// Bit `s` of a byte made of eight bits is the bit that was put there.
pub proof fn lemma_bits_byte_test(
    b0: bool,
    b1: bool,
    b2: bool,
    b3: bool,
    b4: bool,
    b5: bool,
    b6: bool,
    b7: bool,
    s: u8,
)
    requires
        s < 8,
    ensures
        (bits_byte(b0, b1, b2, b3, b4, b5, b6, b7) & (1u8 << s) != 0) == (if s == 0 {
            b0
        } else if s == 1 {
            b1
        } else if s == 2 {
            b2
        } else if s == 3 {
            b3
        } else if s == 4 {
            b4
        } else if s == 5 {
            b5
        } else if s == 6 {
            b6
        } else {
            b7
        }),
{
    let x = bits_byte(b0, b1, b2, b3, b4, b5, b6, b7);
    let (v0, v1, v2, v3, v4, v5, v6, v7): (u8, u8, u8, u8, u8, u8, u8, u8) = (
        if b0 {
            1u8
        } else {
            0u8
        },
        if b1 {
            2u8
        } else {
            0u8
        },
        if b2 {
            4u8
        } else {
            0u8
        },
        if b3 {
            8u8
        } else {
            0u8
        },
        if b4 {
            16u8
        } else {
            0u8
        },
        if b5 {
            32u8
        } else {
            0u8
        },
        if b6 {
            64u8
        } else {
            0u8
        },
        if b7 {
            128u8
        } else {
            0u8
        },
    );
    assert(x == v0 | v1 | v2 | v3 | v4 | v5 | v6 | v7);
    assert(s < 8 && (v0 == 0 || v0 == 1) && (v1 == 0 || v1 == 2) && (v2 == 0 || v2 == 4) && (v3 == 0
        || v3 == 8) && (v4 == 0 || v4 == 16) && (v5 == 0 || v5 == 32) && (v6 == 0 || v6 == 64) && (
    v7 == 0 || v7 == 128) ==> (((v0 | v1 | v2 | v3 | v4 | v5 | v6 | v7) & (1u8 << s) != 0) == (
    if s == 0 {
        v0 != 0
    } else if s == 1 {
        v1 != 0
    } else if s == 2 {
        v2 != 0
    } else if s == 3 {
        v3 != 0
    } else if s == 4 {
        v4 != 0
    } else if s == 5 {
        v5 != 0
    } else if s == 6 {
        v6 != 0
    } else {
        v7 != 0
    }))) by (bit_vector);
}

/// Setting bit `s` of a byte made of eight bits puts `true` there and
/// leaves the other bits.
pub proof fn lemma_bits_byte_set(
    b0: bool,
    b1: bool,
    b2: bool,
    b3: bool,
    b4: bool,
    b5: bool,
    b6: bool,
    b7: bool,
    s: u8,
)
    requires
        s < 8,
    ensures
        bits_byte(b0, b1, b2, b3, b4, b5, b6, b7) | (1u8 << s) == bits_byte(
            b0 || s == 0,
            b1 || s == 1,
            b2 || s == 2,
            b3 || s == 3,
            b4 || s == 4,
            b5 || s == 5,
            b6 || s == 6,
            b7 || s == 7,
        ),
{
    let (v0, v1, v2, v3, v4, v5, v6, v7): (u8, u8, u8, u8, u8, u8, u8, u8) = (
        if b0 {
            1u8
        } else {
            0u8
        },
        if b1 {
            2u8
        } else {
            0u8
        },
        if b2 {
            4u8
        } else {
            0u8
        },
        if b3 {
            8u8
        } else {
            0u8
        },
        if b4 {
            16u8
        } else {
            0u8
        },
        if b5 {
            32u8
        } else {
            0u8
        },
        if b6 {
            64u8
        } else {
            0u8
        },
        if b7 {
            128u8
        } else {
            0u8
        },
    );
    let (w0, w1, w2, w3, w4, w5, w6, w7): (u8, u8, u8, u8, u8, u8, u8, u8) = (
        if b0 || s == 0 {
            1u8
        } else {
            0u8
        },
        if b1 || s == 1 {
            2u8
        } else {
            0u8
        },
        if b2 || s == 2 {
            4u8
        } else {
            0u8
        },
        if b3 || s == 3 {
            8u8
        } else {
            0u8
        },
        if b4 || s == 4 {
            16u8
        } else {
            0u8
        },
        if b5 || s == 5 {
            32u8
        } else {
            0u8
        },
        if b6 || s == 6 {
            64u8
        } else {
            0u8
        },
        if b7 || s == 7 {
            128u8
        } else {
            0u8
        },
    );
    assert(s < 8 && (v0 == 0 || v0 == 1) && (v1 == 0 || v1 == 2) && (v2 == 0 || v2 == 4) && (v3 == 0
        || v3 == 8) && (v4 == 0 || v4 == 16) && (v5 == 0 || v5 == 32) && (v6 == 0 || v6 == 64) && (
    v7 == 0 || v7 == 128) && w0 == (if s == 0 {
        1u8
    } else {
        v0
    }) && w1 == (if s == 1 {
        2u8
    } else {
        v1
    }) && w2 == (if s == 2 {
        4u8
    } else {
        v2
    }) && w3 == (if s == 3 {
        8u8
    } else {
        v3
    }) && w4 == (if s == 4 {
        16u8
    } else {
        v4
    }) && w5 == (if s == 5 {
        32u8
    } else {
        v5
    }) && w6 == (if s == 6 {
        64u8
    } else {
        v6
    }) && w7 == (if s == 7 {
        128u8
    } else {
        v7
    }) ==> (v0 | v1 | v2 | v3 | v4 | v5 | v6 | v7) | (1u8 << s) == (w0 | w1 | w2 | w3 | w4 | w5 | w6
        | w7)) by (bit_vector);
}

} // verus!

verus! {

// ---------------------------------------------------------------------------
// Schemas
// ---------------------------------------------------------------------------

/// Where a column lies in a row: its type, the offset of its bytes in the
/// fixed-size section or of its slot in the directory, and the number of its
/// presence bit (a fixed-size column's only).
#[derive(Debug, Clone, Copy)]
pub struct ColumnEntry {
    t: Type,
    position: usize,
    null_index: usize,
}

impl ColumnEntry {
    /// The column's type.
    pub closed spec fn spec_type(self) -> Type {
        self.t
    }

    /// The offset of the column's bytes or of its slot.
    pub closed spec fn spec_position(self) -> usize {
        self.position
    }

    /// The number of the column's presence bit.
    pub closed spec fn spec_null_index(self) -> usize {
        self.null_index
    }

    pub fn new(t: Type, position: usize, null_index: usize) -> (entry: Self)
        ensures
            entry.spec_type() == t,
            entry.spec_position() == position,
            entry.spec_null_index() == null_index,
    {
        Self { t, position, null_index }
    }

    /// The column's type.
    pub fn get_type(&self) -> (t: Type)
        ensures
            t == self.spec_type(),
    {
        self.t
    }

    /// The offset of the column's bytes or of its slot.
    pub fn position(&self) -> (position: usize)
        ensures
            position == self.spec_position(),
    {
        self.position
    }

    /// The byte and the bit in it where the column's presence bit lies.
    pub fn bitmask_index(&self) -> (index: (usize, usize))
        ensures
            index.0 == self.spec_null_index() / 8,
            index.1 == self.spec_null_index() % 8,
    {
        (self.null_index / 8, self.null_index % 8)
    }
}

/// The entry of column `i` of a schema of the column types `types`.
pub open spec fn layout_matches(entry: ColumnEntry, types: Seq<Type>, i: int) -> bool {
    &&& entry.spec_type() == types[i]
    &&& is_sized(types[i]) ==> entry.spec_position() == 8 * sized_before(types, i)
        && entry.spec_null_index() == sized_before(types, i)
    &&& !is_sized(types[i]) ==> entry.spec_position() == 2 * unsized_before(types, i)
        && entry.spec_null_index() == 0
}

/// The hash map of the crate `indexmap` that keeps its entries in the order
/// in which they were inserted.
#[verifier::external_type_specification]
#[verifier::external_body]
#[verifier::reject_recursive_types(K)]
#[verifier::reject_recursive_types(V)]
#[verifier::reject_recursive_types(S)]
pub struct ExIndexMap<K, V, S>(IndexMap<K, V, S>);

/// What a schema holds: the name of each column with its entry, in the
/// order in which the columns were added.
pub uninterp spec fn index_map_entries(map: IndexMap<String, ColumnEntry>) -> Seq<
    (Seq<char>, ColumnEntry),
>;

/// `IndexMap::new`: a map that holds nothing.
#[verifier::external_body]
fn new_map() -> (map: IndexMap<String, ColumnEntry>)
    ensures
        index_map_entries(map) == Seq::<(Seq<char>, ColumnEntry)>::empty(),
{
    IndexMap::new()
}

/// `IndexMap::len`: how many entries the map holds.
#[verifier::external_body]
fn map_len(map: &IndexMap<String, ColumnEntry>) -> (len: usize)
    ensures
        len == index_map_entries(*map).len(),
{
    map.len()
}

/// `IndexMap::get_index_of`: the position of an entry whose key is `key`,
/// or nothing where no entry has that key.
#[verifier::external_body]
fn map_get_index_of(map: &IndexMap<String, ColumnEntry>, key: &str) -> (index: Option<usize>)
    ensures
        match index {
            Some(i) => i < index_map_entries(*map).len() && index_map_entries(*map)[i as int].0
                == key@,
            None => forall|i: int|
                0 <= i < index_map_entries(*map).len() ==> index_map_entries(*map)[i].0 != key@,
        },
{
    map.get_index_of(key)
}

/// `IndexMap::get_index`: the key and the value at a position, or nothing
/// where the position is past the end.
#[verifier::external_body]
fn map_get_index(map: &IndexMap<String, ColumnEntry>, index: usize) -> (entry: Option<
    (&String, &ColumnEntry),
>)
    ensures
        match entry {
            Some((key, value)) => index < index_map_entries(*map).len() && key@
                == index_map_entries(*map)[index as int].0 && *value == index_map_entries(
                *map,
            )[index as int].1,
            None => index >= index_map_entries(*map).len(),
        },
{
    map.get_index(index)
}

/// `IndexMap::insert` of a key that the map does not hold yet: the new
/// entry comes last and nothing is handed back.
#[verifier::external_body]
fn map_insert(map: &mut IndexMap<String, ColumnEntry>, key: String, value: ColumnEntry) -> (previous:
    Option<ColumnEntry>)
    requires
        forall|i: int|
            0 <= i < index_map_entries(*old(map)).len() ==> index_map_entries(*old(map))[i].0
                != key@,
    ensures
        index_map_entries(*final(map)) == index_map_entries(*old(map)).push((key@, value)),
        previous is None,
{
    map.insert(key, value)
}

/// An ordered schema: the columns by name, each with its type and its
/// place in a row.
#[derive(Debug)]
pub struct Columns {
    columns: IndexMap<String, ColumnEntry>,
    sized_len: usize,
    sized_count: usize,
    unsized_count: usize,
}

/// The position of the first column of that name.
pub open spec fn spec_index_of(names: Seq<Seq<char>>, name: Seq<char>) -> Option<int> {
    if names.contains(name) {
        Some(names.index_of(name))
    } else {
        None
    }
}

impl Columns {
    /// The names and entries of the columns, in order.
    pub closed spec fn spec_entries(&self) -> Seq<(Seq<char>, ColumnEntry)> {
        index_map_entries(self.columns)
    }

    /// The names of the columns, in order.
    pub open spec fn spec_names(&self) -> Seq<Seq<char>> {
        Seq::new(self.spec_entries().len(), |i: int| self.spec_entries()[i].0)
    }

    /// The types of the columns, in order.
    pub open spec fn spec_types(&self) -> Seq<Type> {
        Seq::new(self.spec_entries().len(), |i: int| self.spec_entries()[i].1.spec_type())
    }

    /// Whether every column lies where the columns before it leave it, and
    /// the counts are those of the columns.
    pub closed spec fn layout_ok(&self) -> bool {
        let types = self.spec_types();
        &&& forall|i: int| 0 <= i < types.len() ==> layout_matches(self.spec_entries()[i].1, types, i)
        &&& self.sized_count == sized_before(types, types.len() as int)
        &&& self.unsized_count == unsized_before(types, types.len() as int)
        &&& self.sized_len == 8 * self.sized_count
    }

    /// The invariant of a schema: no name occurs twice, the layout is that
    /// of the columns, and a row of nulls is not too long.
    pub open spec fn wf(&self) -> bool {
        &&& self.spec_names().no_duplicates()
        &&& self.layout_ok()
        &&& fixed_len(self.spec_types()) <= MAX_ROW_LEN
    }

    /// A schema without columns.
    pub fn new() -> (columns: Self)
        ensures
            columns.wf(),
            columns.spec_names() == Seq::<Seq<char>>::empty(),
            columns.spec_types() == Seq::<Type>::empty(),
    {
        let columns = Self { columns: new_map(), sized_len: 0, sized_count: 0, unsized_count: 0 };
        assert(columns.spec_names() =~= Seq::<Seq<char>>::empty());
        assert(columns.spec_types() =~= Seq::<Type>::empty());
        columns
    }

    /// A schema without columns; `capacity` says how many are to come and
    /// changes nothing else.
    pub fn with_capacity(capacity: usize) -> (columns: Self)
        ensures
            columns.wf(),
            columns.spec_names() == Seq::<Seq<char>>::empty(),
            columns.spec_types() == Seq::<Type>::empty(),
    {
        Self::new()
    }

    /// Whether the schema has a column of that name.
    pub fn contains_column(&self, column: &str) -> (found: bool)
        ensures
            found == self.spec_names().contains(column@),
    {
        let index = map_get_index_of(&self.columns, column);
        proof {
            match index {
                Some(i) => {
                    assert(self.spec_names()[i as int] == column@);
                },
                None => {},
            }
        }
        index.is_some()
    }

    /// How many columns the schema has.
    pub fn num_columns(&self) -> (count: usize)
        ensures
            count == self.spec_names().len(),
            count == self.spec_types().len(),
    {
        map_len(&self.columns)
    }

    fn bitmask_size(&self) -> (size: usize)
        requires
            self.wf(),
        ensures
            size == (sized_before(self.spec_types(), self.spec_types().len() as int) + 7) / 8,
    {
        (self.sized_count + 7) / 8
    }

    fn directory_start(&self) -> (start: usize)
        requires
            self.wf(),
        ensures
            start == directory_start(self.spec_types()),
    {
        self.sized_len
    }

    fn bitmask_start(&self) -> (start: usize)
        requires
            self.wf(),
        ensures
            start == bitmap_start(self.spec_types()),
    {
        self.sized_len + self.unsized_count * 2
    }

    fn fixed_len(&self) -> (len: usize)
        requires
            self.wf(),
        ensures
            len == fixed_len(self.spec_types()),
    {
        self.sized_len + self.unsized_count * 2 + self.bitmask_size()
    }

    /// The position of the column of that name.
    pub fn get_index(&self, column: &str) -> (index: Option<usize>)
        requires
            self.wf(),
        ensures
            match index {
                Some(i) => spec_index_of(self.spec_names(), column@) == Some(i as int) && i
                    < self.spec_names().len(),
                None => spec_index_of(self.spec_names(), column@) is None,
            },
    {
        let index = map_get_index_of(&self.columns, column);
        proof {
            match index {
                Some(i) => {
                    assert(self.spec_names()[i as int] == column@);
                    let j = self.spec_names().index_of(column@);
                    assert(self.spec_names()[j] == column@);
                },
                None => {},
            }
        }
        index
    }

    /// The names of the columns, in order.
    pub fn column_names(&self) -> (names: Vec<String>)
        ensures
            names.deep_view() == self.spec_names(),
    {
        let mut names: Vec<String> = Vec::new();
        let n = map_len(&self.columns);
        let mut i: usize = 0;
        while i < n
            invariant
                i <= n,
                n == self.spec_entries().len(),
                names.len() == i,
                forall|j: int| 0 <= j < i ==> names[j]@ == self.spec_entries()[j].0,
            decreases n - i,
        {
            match map_get_index(&self.columns, i) {
                Some((key, _)) => {
                    names.push(key.clone());
                },
                None => {},
            }
            i += 1;
        }
        assert(names.deep_view() =~= self.spec_names());
        names
    }

    /// The type of the column of that name.
    pub fn get_data_type(&self, column: &str) -> (t: Option<Type>)
        requires
            self.wf(),
        ensures
            t == match spec_index_of(self.spec_names(), column@) {
                Some(i) => Some(self.spec_types()[i]),
                None => None,
            },
    {
        match self.get_index(column) {
            Some(i) => match map_get_index(&self.columns, i) {
                Some((_, entry)) => Some(entry.get_type()),
                None => None,
            },
            None => None,
        }
    }

    /// The name of the column at a position; an internal error past the
    /// last column.
    pub fn column_name(&self, index: usize) -> (result: Result<&str, Error>)
        ensures
            match result {
                Ok(name) => index < self.spec_names().len() && name@ == self.spec_names()[index as int],
                Err(e) => index >= self.spec_names().len() && e@ == ErrorView::Internal,
            },
    {
        match map_get_index(&self.columns, index) {
            Some((key, _)) => Ok(key.as_str()),
            None => Err(internal("No column with that index")),
        }
    }

    /// Adds a column at the end and gives its position. A name that the
    /// schema has already fails with `ColumnExists`; a column with which a
    /// row of nulls would be too long is an internal error. A failure leaves
    /// the schema as it was.
    pub fn add_column(&mut self, name: String, t: Type) -> (result: Result<usize, Error>)
        requires
            old(self).wf(),
        ensures
            final(self).wf(),
            match result {
                Ok(index) => {
                    &&& !old(self).spec_names().contains(name@)
                    &&& index == old(self).spec_names().len()
                    &&& final(self).spec_names() == old(self).spec_names().push(name@)
                    &&& final(self).spec_types() == old(self).spec_types().push(t)
                },
                Err(e) => {
                    &&& *final(self) == *old(self)
                    &&& if old(self).spec_names().contains(name@) {
                        e@ == ErrorView::Execution(ExecutionErrorView::ColumnExists(name@))
                    } else {
                        e@ == ErrorView::Internal && fixed_len(old(self).spec_types().push(t))
                            > MAX_ROW_LEN
                    }
                },
            },
    {
        if self.contains_column(name.as_str()) {
            return Err(Error::Execution(ExecutionError::ColumnExists(name)));
        }
        let ghost old_types = self.spec_types();
        let ghost old_names = self.spec_names();
        let ghost new_types = old_types.push(t);
        let index = map_len(&self.columns);
        proof {
            lemma_counts(old_types, old_types.len() as int);
            lemma_counts_push(old_types, t, old_types.len() as int);
            assert(new_types.drop_last() =~= old_types);
            assert forall|i: int| 0 <= i < self.spec_entries().len() implies self.spec_entries()[i].0
                != name@ by {
                assert(old_names[i] == self.spec_entries()[i].0);
            }
        }
        // The length of a row of nulls with the new column.
        let sized: bool = match t {
            Type::Integer => true,
            Type::String => false,
        };
        let new_fixed_len: usize = if sized {
            self.sized_len + 8 + self.unsized_count * 2 + (self.sized_count + 8) / 8
        } else {
            self.sized_len + (self.unsized_count + 1) * 2 + (self.sized_count + 7) / 8
        };
        if new_fixed_len > MAX_ROW_LEN {
            return Err(internal("A row of this schema would be too long"));
        }
        let ghost old_entries = self.spec_entries();
        if sized {
            let entry = ColumnEntry::new(t, self.sized_len, self.sized_count);
            let _ = map_insert(&mut self.columns, name, entry);
            self.sized_len += 8;
            self.sized_count += 1;
        } else {
            let entry = ColumnEntry::new(t, self.unsized_count * 2, 0);
            let _ = map_insert(&mut self.columns, name, entry);
            self.unsized_count += 1;
        }
        proof {
            assert(self.spec_names() =~= old_names.push(name@));
            assert(self.spec_types() =~= new_types);
            assert forall|i: int| 0 <= i < new_types.len() implies layout_matches(
                self.spec_entries()[i].1,
                new_types,
                i,
            ) by {
                lemma_counts_push(old_types, t, i);
                if i < old_types.len() {
                    assert(self.spec_entries()[i] == old_entries[i]);
                    assert(layout_matches(old_entries[i].1, old_types, i));
                }
            }
            assert(self.spec_names().no_duplicates()) by {
                assert forall|i: int, j: int|
                    0 <= i < self.spec_names().len() && 0 <= j < self.spec_names().len() && i
                        != j implies self.spec_names()[i] != self.spec_names()[j] by {
                    if i < old_names.len() && j < old_names.len() {
                        assert(old_names[i] != old_names[j]);
                    } else if i < old_names.len() {
                        assert(old_names[i] == old_names[i]);
                    } else {
                        assert(old_names[j] == old_names[j]);
                    }
                }
            }
        }
        Ok(index)
    }
}

impl Default for Columns {
    fn default() -> (columns: Self)
        ensures
            columns.wf(),
            columns.spec_names() == Seq::<Seq<char>>::empty(),
    {
        Columns::new()
    }
}

} // verus!

verus! {

// ---------------------------------------------------------------------------
// Writing rows
// ---------------------------------------------------------------------------

/// How long a row is: the part before the payloads, then the payloads.
pub proof fn lemma_encode_len(sv: Seq<ValueView>, uv: Seq<ValueView>)
    ensures
        spec_encode_values(sv, uv).len() == payload_base(sv, uv) + payloads(uv).len(),
        header(sv, uv).len() == payload_base(sv, uv),
{
    reveal(header);
}

/// A row of nulls is all zeros.
pub proof fn lemma_encode_nulls(sv: Seq<ValueView>, uv: Seq<ValueView>)
    requires
        forall|j: int| 0 <= j < sv.len() ==> sv[j] is Null,
        forall|j: int| 0 <= j < uv.len() ==> uv[j] is Null,
    ensures
        spec_encode_values(sv, uv) == Seq::new(payload_base(sv, uv) as nat, |p: int| 0u8),
{
    reveal(header);
    lemma_payloads_nulls(uv, 0);
    assert(uv.take(0) =~= Seq::<ValueView>::empty());
    assert(payloads(uv) =~= Seq::<u8>::empty());
    assert(0u8 | 0u8 | 0u8 | 0u8 | 0u8 | 0u8 | 0u8 | 0u8 == 0u8) by (bit_vector);
    assert(spec_encode_values(sv, uv) =~= Seq::new(payload_base(sv, uv) as nat, |p: int| 0u8));
}

/// What storing a value in the first fixed-size column that is still null
/// does to a row: the value's bytes take the column's place and its
/// presence bit is set.
pub proof fn lemma_encode_sized_step(
    sv: Seq<ValueView>,
    uv: Seq<ValueView>,
    k: int,
    c: TypeContentsView,
)
    requires
        0 <= k < sv.len(),
        forall|j: int| k <= j < sv.len() ==> sv[j] is Null,
        spec_encode(c).len() == 8,
    ensures
        spec_encode_values(sv.update(k, ValueView::TypedValue(c)), uv) == Seq::new(
            spec_encode_values(sv, uv).len(),
            |p: int|
                if 8 * k <= p < 8 * k + 8 {
                    spec_encode(c)[p - 8 * k]
                } else if p == 8 * sv.len() + 2 * uv.len() + k / 8 {
                    spec_encode_values(sv, uv)[p] | (1u8 << ((k % 8) as u8))
                } else {
                    spec_encode_values(sv, uv)[p]
                },
        ),
{
    reveal(header);
    let old_row = spec_encode_values(sv, uv);
    let sv2 = sv.update(k, ValueView::TypedValue(c));
    let new_row = spec_encode_values(sv2, uv);
    let expected = Seq::new(
        old_row.len(),
        |p: int|
            if 8 * k <= p < 8 * k + 8 {
                spec_encode(c)[p - 8 * k]
            } else if p == 8 * sv.len() + 2 * uv.len() + k / 8 {
                old_row[p] | (1u8 << ((k % 8) as u8))
            } else {
                old_row[p]
            },
    );
    let q = k / 8;
    let s = (k % 8) as u8;
    lemma_bits_byte_set(
        present(sv, 8 * q),
        present(sv, 8 * q + 1),
        present(sv, 8 * q + 2),
        present(sv, 8 * q + 3),
        present(sv, 8 * q + 4),
        present(sv, 8 * q + 5),
        present(sv, 8 * q + 6),
        present(sv, 8 * q + 7),
        s,
    );
    assert(bitmap_byte(sv2, q) == bitmap_byte(sv, q) | (1u8 << s));
    assert forall|p: int| 0 <= p < new_row.len() implies new_row[p] == expected[p] by {
        if p < 8 * sv.len() {
        } else if p < 8 * sv.len() + 2 * uv.len() {
        } else if p < payload_base(sv, uv) {
            let q2 = p - 8 * sv.len() - 2 * uv.len();
            if q2 != q {
                assert(bitmap_byte(sv2, q2) == bitmap_byte(sv, q2));
            }
        } else {
        }
    }
    assert(new_row =~= expected);
}

/// What storing a value in the first variable-size column that is still
/// null does to a row: its slot gets the length of the row so far, and its
/// bytes come at the end.
pub proof fn lemma_encode_unsized_step(
    sv: Seq<ValueView>,
    uv: Seq<ValueView>,
    m: int,
    c: TypeContentsView,
)
    requires
        0 <= m < uv.len(),
        forall|j: int| m <= j < uv.len() ==> uv[j] is Null,
    ensures
        spec_encode_values(sv, uv.update(m, ValueView::TypedValue(c))) == spec_encode_values(
            sv,
            uv,
        ).update(8 * sv.len() + 2 * m, u16_be(spec_encode_values(sv, uv).len() as int, 0)).update(
            8 * sv.len() + 2 * m + 1,
            u16_be(spec_encode_values(sv, uv).len() as int, 1),
        ) + spec_encode(c),
{
    reveal(header);
    let old_row = spec_encode_values(sv, uv);
    let uv2 = uv.update(m, ValueView::TypedValue(c));
    let new_row = spec_encode_values(sv, uv2);
    let at = 8 * sv.len() + 2 * m;
    let expected = old_row.update(at, u16_be(old_row.len() as int, 0)).update(
        at + 1,
        u16_be(old_row.len() as int, 1),
    ) + spec_encode(c);
    lemma_payloads_nulls(uv, m);
    lemma_payloads_nulls(uv2, m + 1);
    lemma_payloads_take(uv2, m);
    assert(uv2.take(m) =~= uv.take(m));
    assert(payloads(uv2) == payloads(uv) + spec_encode(c));
    assert forall|m2: int| 0 <= m2 < uv.len() && m2 != m implies slot(
        uv2,
        m2,
        payload_base(sv, uv),
    ) == slot(uv, m2, payload_base(sv, uv)) by {
        if m2 < m {
            assert(uv2.take(m2) =~= uv.take(m2));
        }
    }
    assert(slot(uv2, m, payload_base(sv, uv)) == old_row.len());
    assert forall|p: int| 0 <= p < new_row.len() implies new_row[p] == expected[p] by {
        if p < 8 * sv.len() {
        } else if p < 8 * sv.len() + 2 * uv.len() {
            let m2 = (p - 8 * sv.len()) / 2;
            if m2 != m {
                assert(slot(uv2, m2, payload_base(sv, uv)) == slot(uv, m2, payload_base(sv, uv)));
            }
        } else if p < payload_base(sv, uv) {
        } else {
        }
    }
    assert(new_row.len() == expected.len());
    assert(new_row =~= expected);
}

fn zeros(n: usize) -> (v: Vec<u8>)
    ensures
        v@ == Seq::new(n as nat, |p: int| 0u8),
{
    let mut v: Vec<u8> = Vec::new();
    let mut i: usize = 0;
    while i < n
        invariant
            i <= n,
            v@ == Seq::new(i as nat, |p: int| 0u8),
        decreases n - i,
    {
        v.push(0);
        i += 1;
        assert(v@ =~= Seq::new(i as nat, |p: int| 0u8));
    }
    v
}

fn append_bytes(row: &mut Vec<u8>, bytes: &[u8])
    ensures
        final(row)@ == old(row)@ + bytes@,
{
    let mut i: usize = 0;
    while i < bytes.len()
        invariant
            i <= bytes@.len(),
            row@ == old(row)@ + bytes@.take(i as int),
        decreases bytes@.len() - i,
    {
        row.push(bytes[i]);
        i += 1;
        assert(row@ =~= old(row)@ + bytes@.take(i as int));
    }
    assert(bytes@.take(bytes@.len() as int) =~= bytes@);
}

fn write_bytes(row: &mut Vec<u8>, at: usize, bytes: &[u8])
    requires
        at + bytes@.len() <= old(row).len(),
    ensures
        final(row)@ == Seq::new(
            old(row)@.len(),
            |p: int|
                if at <= p < at + bytes@.len() {
                    bytes@[p - at]
                } else {
                    old(row)@[p]
                },
        ),
{
    let mut i: usize = 0;
    while i < bytes.len()
        invariant
            i <= bytes@.len(),
            at + bytes@.len() <= row.len(),
            row@ == Seq::new(
                old(row)@.len(),
                |p: int|
                    if at <= p < at + i {
                        bytes@[p - at]
                    } else {
                        old(row)@[p]
                    },
            ),
        decreases bytes@.len() - i,
    {
        row[at + i] = bytes[i];
        i += 1;
        assert(row@ =~= Seq::new(
            old(row)@.len(),
            |p: int|
                if at <= p < at + i {
                    bytes@[p - at]
                } else {
                    old(row)@[p]
                },
        ));
    }
}

/// Puts the payload of a variable-size column at the end of a row and
/// writes where it begins into the column's directory slot, the two bytes at
/// `dictionary_position`.
pub fn append_unsized(dictionary_position: usize, bytes: &[u8], row: &mut Vec<u8>)
    requires
        dictionary_position + 2 <= old(row).len(),
        old(row).len() <= MAX_ROW_LEN,
    ensures
        final(row)@ == old(row)@.update(
            dictionary_position as int,
            u16_be(old(row).len() as int, 0),
        ).update(dictionary_position + 1, u16_be(old(row).len() as int, 1)) + bytes@,
{
    let offset: usize = row.len();
    row[dictionary_position] = (offset / 256) as u8;
    row[dictionary_position + 1] = (offset % 256) as u8;
    append_bytes(row, bytes);
}

fn contents_bytes(contents: &TypeContents) -> (bytes: Vec<u8>)
    ensures
        bytes@ == spec_encode(contents@),
{
    let (encoded, _) = contents.encode();
    match encoded {
        std::borrow::Cow::Borrowed(b) => {
            let mut bytes: Vec<u8> = Vec::new();
            append_bytes(&mut bytes, b);
            assert(bytes@ =~= b@);
            bytes
        },
        std::borrow::Cow::Owned(v) => v,
    }
}

/// The row that stores the values of the first `i` columns and null for
/// the others.
pub open spec fn spec_partial_row(types: Seq<Type>, values: Seq<ValueView>, i: int) -> Seq<u8> {
    spec_encode_values(
        null_from(sized_values(types, values, types.len() as int), sized_before(types, i) as int),
        null_from(
            unsized_values(types, values, types.len() as int),
            unsized_before(types, i) as int,
        ),
    )
}

/// What storing the value of column `i` does to the values that a row
/// holds.
pub proof fn lemma_partial_row_step(types: Seq<Type>, values: Seq<ValueView>, i: int)
    requires
        0 <= i < types.len(),
        values.len() == types.len(),
    ensures
        ({
            let all_sized = sized_values(types, values, types.len() as int);
            let all_unsized = unsized_values(types, values, types.len() as int);
            let ks = sized_before(types, i) as int;
            let ku = unsized_before(types, i) as int;
            let sv = null_from(all_sized, ks);
            let uv = null_from(all_unsized, ku);
            let stored = spec_cast_value(values[i], types[i]);
            &&& sv.len() == sized_before(types, types.len() as int)
            &&& uv.len() == unsized_before(types, types.len() as int)
            &&& forall|j: int| ks <= j < sv.len() ==> sv[j] is Null
            &&& forall|j: int| ku <= j < uv.len() ==> uv[j] is Null
            &&& spec_partial_row(types, values, i).len() == fixed_len(types) + payloads(
                all_unsized.take(ku),
            ).len()
            &&& spec_encode_row(types, values).len() >= spec_partial_row(types, values, i).len()
                + (if is_sized(types[i]) {
                0
            } else {
                payload(stored).len() as int
            })
            &&& if is_sized(types[i]) {
                &&& ks < sv.len()
                &&& spec_partial_row(types, values, i + 1) == spec_encode_values(
                    sv.update(ks, stored),
                    uv,
                )
                &&& stored is Null ==> sv.update(ks, stored) == sv
                &&& match stored {
                    ValueView::Null => true,
                    ValueView::TypedValue(c) => spec_encode(c).len() == 8,
                }
            } else {
                &&& ku < uv.len()
                &&& spec_partial_row(types, values, i + 1) == spec_encode_values(
                    sv,
                    uv.update(ku, stored),
                )
                &&& stored is Null ==> uv.update(ku, stored) == uv
            }
        }),
{
    let n = types.len() as int;
    let all_sized = sized_values(types, values, n);
    let all_unsized = unsized_values(types, values, n);
    let ks = sized_before(types, i) as int;
    let ku = unsized_before(types, i) as int;
    let sv = null_from(all_sized, ks);
    let uv = null_from(all_unsized, ku);
    let stored = spec_cast_value(values[i], types[i]);
    lemma_values_len(types, values, n);
    lemma_values_at(types, values, n, i);
    lemma_counts(types, i);
    lemma_encode_len(sv, uv);
    lemma_encode_len(all_sized, all_unsized);
    lemma_payloads_null_from(all_unsized, ku);
    lemma_payloads_take(all_unsized, ku);
    if is_sized(types[i]) {
        assert(null_from(all_sized, ks + 1) =~= sv.update(ks, stored));
        assert(null_from(all_unsized, ku) =~= uv);
        if stored is Null {
            assert(sv.update(ks, stored) =~= sv);
        } else {
            lemma_sized_values_are_integers(types, values, n, ks);
        }
    } else {
        lemma_payloads_take(all_unsized, ku + 1);
        assert(null_from(all_unsized, ku + 1) =~= uv.update(ku, stored));
        assert(null_from(all_sized, ks) =~= sv);
        if stored is Null {
            assert(uv.update(ku, stored) =~= uv);
        }
    }
}

fn put_sized(
    row: &mut Vec<u8>,
    Ghost(sv): Ghost<Seq<ValueView>>,
    Ghost(uv): Ghost<Seq<ValueView>>,
    Ghost(c): Ghost<TypeContentsView>,
    Ghost(k): Ghost<int>,
    pos: usize,
    mask_at: usize,
    bit: usize,
    bytes: &[u8],
)
    requires
        old(row)@ == spec_encode_values(sv, uv),
        0 <= k < sv.len(),
        pos == 8 * k,
        forall|j: int| k <= j < sv.len() ==> sv[j] is Null,
        bytes@ == spec_encode(c),
        bytes@.len() == 8,
        mask_at == 8 * sv.len() + 2 * uv.len() + k / 8,
        bit == k % 8,
    ensures
        final(row)@ == spec_encode_values(sv.update(k, ValueView::TypedValue(c)), uv),
        final(row).len() == old(row).len(),
{
    proof {
        lemma_encode_len(sv, uv);
        lemma_encode_sized_step(sv, uv, k, c);
    }
    row[mask_at] |= 1u8 << (bit as u8);
    write_bytes(row, pos, bytes);
    assert(row@ =~= spec_encode_values(sv.update(k, ValueView::TypedValue(c)), uv));
}

fn put_unsized(
    row: &mut Vec<u8>,
    Ghost(sv): Ghost<Seq<ValueView>>,
    Ghost(uv): Ghost<Seq<ValueView>>,
    Ghost(c): Ghost<TypeContentsView>,
    Ghost(m): Ghost<int>,
    slot_at: usize,
    bytes: &[u8],
)
    requires
        old(row)@ == spec_encode_values(sv, uv),
        0 <= m < uv.len(),
        slot_at == 8 * sv.len() + 2 * m,
        forall|j: int| m <= j < uv.len() ==> uv[j] is Null,
        bytes@ == spec_encode(c),
        old(row).len() + bytes@.len() <= MAX_ROW_LEN,
    ensures
        final(row)@ == spec_encode_values(sv, uv.update(m, ValueView::TypedValue(c))),
        final(row).len() == old(row).len() + bytes@.len(),
{
    proof {
        lemma_encode_len(sv, uv);
        lemma_encode_unsized_step(sv, uv, m, c);
    }
    append_unsized(slot_at, bytes, row);
}

impl Columns {
    /// Stores one value, that of column `i`, in a row that holds the
    /// values of the columns before it.
    fn encode_column(
        &self,
        row: &mut Vec<u8>,
        i: usize,
        value: &Value,
        Ghost(values): Ghost<Seq<ValueView>>,
    ) -> (result: Result<(), Error>)
        requires
            self.wf(),
            i < self.spec_types().len(),
            values.len() == self.spec_types().len(),
            values[i as int] == value@,
            old(row)@ == spec_partial_row(self.spec_types(), values, i as int),
            old(row).len() <= MAX_ROW_LEN,
        ensures
            match result {
                Ok(()) => {
                    &&& final(row)@ == spec_partial_row(self.spec_types(), values, i + 1)
                    &&& final(row).len() <= MAX_ROW_LEN
                },
                Err(e) => e@ == ErrorView::Internal && spec_encode_row(self.spec_types(), values).len()
                    > MAX_ROW_LEN,
            },
    {
        let ghost types = self.spec_types();
        let ghost sv = null_from(
            sized_values(types, values, types.len() as int),
            sized_before(types, i as int) as int,
        );
        let ghost uv = null_from(
            unsized_values(types, values, types.len() as int),
            unsized_before(types, i as int) as int,
        );
        let bitmask_at = self.bitmask_start();
        let directory_at = self.directory_start();
        let entry: ColumnEntry = match map_get_index(&self.columns, i) {
            Some((_, entry)) => *entry,
            None => {
                return Err(internal("Column out of range"));
            },
        };
        assert(layout_matches(entry, types, i as int));
        let t = entry.get_type();
        let pos = entry.position();
        proof {
            lemma_partial_row_step(types, values, i as int);
        }
        match value {
            Value::Null => Ok(()),
            Value::TypedValue(c) => {
                let contents = c.duplicate().cast(&t);
                let bytes = contents_bytes(&contents);
                match t.size() {
                    Some(_) => {
                        let (index, bit) = entry.bitmask_index();
                        put_sized(
                            row,
                            Ghost(sv),
                            Ghost(uv),
                            Ghost(contents@),
                            Ghost(sized_before(types, i as int) as int),
                            pos,
                            bitmask_at + index,
                            bit,
                            bytes.as_slice(),
                        );
                        Ok(())
                    },
                    None => {
                        if bytes.len() > MAX_ROW_LEN - row.len() {
                            return Err(internal("The row is too long"));
                        }
                        put_unsized(
                            row,
                            Ghost(sv),
                            Ghost(uv),
                            Ghost(contents@),
                            Ghost(unsized_before(types, i as int) as int),
                            directory_at + pos,
                            bytes.as_slice(),
                        );
                        Ok(())
                    },
                }
            },
        }
    }

    /// The row that stores `data`, one value for each column in order, each
    /// cast to its column's type. Fails with `WrongNumColumns` where there
    /// are not as many values as columns, and with an internal error where
    /// the row would be longer than `MAX_ROW_LEN`.
    pub fn generate_row(&self, data: Vec<Value>) -> (result: Result<Vec<u8>, Error>)
        requires
            self.wf(),
        ensures
            match result {
                Ok(row) => {
                    &&& data.len() == self.spec_types().len()
                    &&& row@ == spec_encode_row(self.spec_types(), data.deep_view())
                    &&& row.len() <= MAX_ROW_LEN
                },
                Err(e) => if data.len() != self.spec_types().len() {
                    e@ == ErrorView::Execution(
                        ExecutionErrorView::WrongNumColumns {
                            expected: self.spec_types().len() as usize,
                            actual: data.len(),
                        },
                    )
                } else {
                    e@ == ErrorView::Internal && spec_encode_row(
                        self.spec_types(),
                        data.deep_view(),
                    ).len() > MAX_ROW_LEN
                },
            },
    {
        let n = self.num_columns();
        if n != data.len() {
            return Err(
                Error::Execution(ExecutionError::WrongNumColumns { expected: n, actual: data.len() }),
            );
        }
        let ghost types = self.spec_types();
        let ghost values = data.deep_view();
        let ghost all_sized = sized_values(types, values, n as int);
        let ghost all_unsized = unsized_values(types, values, n as int);
        let mut row = zeros(self.fixed_len());
        proof {
            lemma_values_len(types, values, n as int);
            lemma_encode_nulls(null_from(all_sized, 0), null_from(all_unsized, 0));
            lemma_encode_len(null_from(all_sized, 0), null_from(all_unsized, 0));
        }
        let mut i: usize = 0;
        while i < n
            invariant
                self.wf(),
                i <= n,
                n == types.len(),
                n == data.len(),
                types == self.spec_types(),
                values == data.deep_view(),
                all_sized == sized_values(types, values, n as int),
                all_unsized == unsized_values(types, values, n as int),
                row@ == spec_partial_row(types, values, i as int),
                row.len() <= MAX_ROW_LEN,
            decreases n - i,
        {
            match self.encode_column(&mut row, i, &data[i], Ghost(values)) {
                Ok(()) => {},
                Err(e) => {
                    return Err(e);
                },
            }
            i += 1;
        }
        proof {
            lemma_values_len(types, values, n as int);
            assert(null_from(all_sized, all_sized.len() as int) =~= all_sized);
            assert(null_from(all_unsized, all_unsized.len() as int) =~= all_unsized);
        }
        Ok(row)
    }
}

} // verus!

verus! {

// ---------------------------------------------------------------------------
// Reading rows
// ---------------------------------------------------------------------------

/// The payload of a variable-size column whose directory slot, the two
/// bytes at `dictionary_position`, is not 0: the bytes from where the slot
/// says up to where the next payload begins. The last slot of the directory
/// lies at `end_position`. A payload that does not lie in the row is an
/// internal error.
pub fn get_unsized_data(dictionary_position: usize, end_position: usize, row: &[u8]) -> (result:
    Result<&[u8], Error>)
    requires
        dictionary_position + 2 <= row@.len(),
        dictionary_position <= end_position,
        end_position + 2 <= row@.len(),
        (end_position - dictionary_position) % 2 == 0,
    ensures
        ({
            let start = read_u16(row@, dictionary_position as int);
            let end = spec_payload_end(row@, dictionary_position + 2, end_position as int);
            match result {
                Ok(bytes) => start <= end <= row@.len() && bytes@ == row@.subrange(start, end),
                Err(e) => !(start <= end <= row@.len()) && e@ == ErrorView::Internal,
            }
        }),
{
    let mut end: usize = row.len();
    let mut next_start: usize = dictionary_position + 2;
    while next_start <= end_position
        invariant_except_break
            end == row@.len(),
            spec_payload_end(row@, dictionary_position + 2, end_position as int)
                == spec_payload_end(row@, next_start as int, end_position as int),
        invariant
            dictionary_position + 2 <= next_start <= end_position + 2,
            end_position + 2 <= row@.len(),
            (end_position + 2 - next_start) % 2 == 0,
        ensures
            end == spec_payload_end(row@, dictionary_position + 2, end_position as int),
        decreases end_position + 2 - next_start,
    {
        let slot: usize = (row[next_start] as usize) * 256 + (row[next_start + 1] as usize);
        if slot > 0 {
            end = slot;
            break ;
        }
        next_start += 2;
    }
    let data_position: usize = (row[dictionary_position] as usize) * 256 + (row[dictionary_position
        + 1] as usize);
    if data_position <= end && end <= row.len() {
        Ok(&row[data_position..end])
    } else {
        Err(internal("A payload does not lie in its row"))
    }
}

/// Something that names a column of a schema: a position or a name.
pub trait ColumnKey: Sized {
    /// The position of the column that the key names, or why it names
    /// none.
    spec fn spec_get_entry(self, columns: &Columns) -> Result<int, ErrorView>;

    /// The position and the entry of the column that the key names.
    fn get_entry(self, columns: &Columns) -> (result: Result<(usize, ColumnEntry), Error>)
        requires
            columns.wf(),
        ensures
            match result {
                Ok((i, entry)) => self.spec_get_entry(columns) == Ok::<int, ErrorView>(i as int)
                    && i < columns.spec_types().len() && columns.entry_at(i as int) == entry,
                Err(e) => self.spec_get_entry(columns) == Err::<int, ErrorView>(e@),
            },
    ;
}

impl ColumnKey for usize {
    /// A position names the column there; past the last column it is an
    /// internal error.
    open spec fn spec_get_entry(self, columns: &Columns) -> Result<int, ErrorView> {
        if self < columns.spec_names().len() {
            Ok(self as int)
        } else {
            Err(ErrorView::Internal)
        }
    }

    fn get_entry(self, columns: &Columns) -> (result: Result<(usize, ColumnEntry), Error>) {
        match map_get_index(&columns.columns, self) {
            Some((_, entry)) => Ok((self, *entry)),
            None => Err(internal("Could not get entry for index")),
        }
    }
}

impl ColumnKey for &str {
    /// A name names the column of that name; a name that the schema does
    /// not have fails with `NoColumn`.
    open spec fn spec_get_entry(self, columns: &Columns) -> Result<int, ErrorView> {
        match spec_index_of(columns.spec_names(), self@) {
            Some(i) => Ok(i),
            None => Err(ErrorView::Execution(ExecutionErrorView::NoColumn(self@))),
        }
    }

    fn get_entry(self, columns: &Columns) -> (result: Result<(usize, ColumnEntry), Error>) {
        match columns.get_index(self) {
            Some(i) => match map_get_index(&columns.columns, i) {
                Some((_, entry)) => Ok((i, *entry)),
                None => Err(internal("Could not get entry for index")),
            },
            None => Err(Error::Execution(ExecutionError::NoColumn(self.to_owned()))),
        }
    }
}

impl Columns {
    /// The entry of the column at a position.
    pub closed spec fn entry_at(&self, i: int) -> ColumnEntry {
        self.spec_entries()[i].1
    }

    fn last_unsized_position(&self) -> (position: usize)
        requires
            self.wf(),
            unsized_before(self.spec_types(), self.spec_types().len() as int) > 0,
        ensures
            position == bitmap_start(self.spec_types()) - 2,
    {
        self.directory_start() + (self.unsized_count - 1) * 2
    }

    /// What a row holds for the column that `key` names.
    pub fn get_data<K: ColumnKey>(&self, key: K, row: &[u8]) -> (result: Result<Value, Error>)
        requires
            self.wf(),
        ensures
            spec_value_result(result) == match key.spec_get_entry(self) {
                Ok(i) => spec_decode_column(self.spec_types(), row@, i),
                Err(e) => Err(e),
            },
    {
        let (i, entry) = match key.get_entry(self) {
            Ok(found) => found,
            Err(e) => {
                return Err(e);
            },
        };
        let ghost types = self.spec_types();
        proof {
            lemma_counts(types, i as int);
        }
        assert(layout_matches(entry, types, i as int));
        if row.len() < self.fixed_len() {
            return Err(internal("The row is too short for its schema"));
        }
        let t = entry.get_type();
        let contents = match t.size() {
            Some(s) => {
                let position = entry.position();
                let (index, bit) = entry.bitmask_index();
                if row[self.bitmask_start() + index] & (1u8 << (bit as u8)) == 0 {
                    return Ok(Value::Null);
                }
                t.decode(&row[position..position + s])
            },
            None => {
                let position = self.directory_start() + entry.position();
                if row[position] == 0 && row[position + 1] == 0 {
                    return Ok(Value::Null);
                }
                match get_unsized_data(position, self.last_unsized_position(), row) {
                    Ok(bytes) => t.decode(bytes),
                    Err(e) => {
                        return Err(e);
                    },
                }
            },
        };
        match contents {
            Ok(c) => Ok(Value::TypedValue(c)),
            Err(e) => Err(e),
        }
    }
}

/// Where each payload ends in a row that the codec wrote.
proof fn lemma_payload_end(sv: Seq<ValueView>, uv: Seq<ValueView>, m: int)
    requires
        0 <= m <= uv.len(),
        spec_encode_values(sv, uv).len() <= MAX_ROW_LEN,
    ensures
        spec_payload_end(
            spec_encode_values(sv, uv),
            8 * sv.len() + 2 * m,
            8 * sv.len() + 2 * uv.len() - 2,
        ) == payload_base(sv, uv) + payloads(uv.take(m)).len(),
        m < uv.len() ==> read_u16(spec_encode_values(sv, uv), 8 * sv.len() + 2 * m) == slot(
            uv,
            m,
            payload_base(sv, uv),
        ),
    decreases uv.len() - m,
{
    reveal(header);
    let row = spec_encode_values(sv, uv);
    lemma_payloads_take(uv, m);
    if m == uv.len() {
        assert(uv.take(m) =~= uv);
    } else {
        lemma_payload_end(sv, uv, m + 1);
        let at = 8 * sv.len() + 2 * m;
        let x = slot(uv, m, payload_base(sv, uv));
        assert(0 <= x < 65536);
        assert(row[at] == u16_be(x, 0));
        assert(row[at + 1] == u16_be(x, 1));
        assert(read_u16(row, at) == x);
    }
}

/// The presence bits of a row that the codec wrote.
proof fn lemma_header_bitmap(sv: Seq<ValueView>, uv: Seq<ValueView>, q: int)
    requires
        0 <= q < (sv.len() + 7) / 8,
    ensures
        spec_encode_values(sv, uv)[8 * sv.len() + 2 * uv.len() + q] == bitmap_byte(sv, q),
{
    reveal(header);
}

/// The bytes of a fixed-size column in a row that the codec wrote.
proof fn lemma_header_fixed(sv: Seq<ValueView>, uv: Seq<ValueView>, k: int, c: TypeContentsView)
    requires
        0 <= k < sv.len(),
        sv[k] == ValueView::TypedValue(c),
        spec_encode(c).len() == 8,
    ensures
        spec_encode_values(sv, uv).subrange(8 * k, 8 * k + 8) == spec_encode(c),
{
    reveal(header);
    let row = spec_encode_values(sv, uv);
    assert forall|j: int| 0 <= j < 8 implies row[8 * k + j] == spec_encode(c)[j] by {
        assert((8 * k + j) / 8 == k);
        assert((8 * k + j) % 8 == j);
    }
    assert(row.subrange(8 * k, 8 * k + 8) =~= spec_encode(c));
}

/// The payload of a variable-size column in a row that the codec wrote.
proof fn lemma_row_payload(sv: Seq<ValueView>, uv: Seq<ValueView>, m: int)
    requires
        0 <= m < uv.len(),
    ensures
        ({
            let start = payload_base(sv, uv) + payloads(uv.take(m)).len();
            let end = payload_base(sv, uv) + payloads(uv.take(m + 1)).len();
            &&& start <= end <= spec_encode_values(sv, uv).len()
            &&& spec_encode_values(sv, uv).subrange(start, end) == payload(uv[m])
        }),
{
    let row = spec_encode_values(sv, uv);
    let start = payload_base(sv, uv) + payloads(uv.take(m)).len();
    let end = payload_base(sv, uv) + payloads(uv.take(m + 1)).len();
    lemma_encode_len(sv, uv);
    lemma_payloads_take(uv, m);
    lemma_payloads_take(uv, m + 1);
    let all = payloads(uv);
    let b = payloads(uv.take(m + 1));
    assert(b == all.subrange(0, b.len() as int));
    assert forall|j: int| 0 <= j < payload(uv[m]).len() implies row[start + j] == payload(
        uv[m],
    )[j] by {
        assert(b[payloads(uv.take(m)).len() + j] == payload(uv[m])[j]);
        assert(all.subrange(0, b.len() as int)[payloads(uv.take(m)).len() + j]
            == all[payloads(uv.take(m)).len() + j]);
    }
    assert(row.subrange(start, end) =~= payload(uv[m]));
}

/// Reading a fixed-size column from a row that the codec wrote gives what
/// was stored.
proof fn lemma_round_trip_sized(types: Seq<Type>, values: Seq<ValueView>, i: int)
    requires
        values.len() == types.len(),
        0 <= i < types.len(),
        is_sized(types[i]),
    ensures
        spec_decode_column(types, spec_encode_row(types, values), i) == Ok::<ValueView, ErrorView>(
            spec_cast_value(values[i], types[i]),
        ),
{
    let n = types.len() as int;
    let sv = sized_values(types, values, n);
    let uv = unsized_values(types, values, n);
    let row = spec_encode_row(types, values);
    let stored = spec_cast_value(values[i], types[i]);
    lemma_values_len(types, values, n);
    lemma_values_at(types, values, n, i);
    lemma_counts(types, i);
    lemma_encode_len(sv, uv);
    let k = sized_before(types, i) as int;
    let q = k / 8;
    let s = (k % 8) as u8;
    lemma_bits_byte_test(
        present(sv, 8 * q),
        present(sv, 8 * q + 1),
        present(sv, 8 * q + 2),
        present(sv, 8 * q + 3),
        present(sv, 8 * q + 4),
        present(sv, 8 * q + 5),
        present(sv, 8 * q + 6),
        present(sv, 8 * q + 7),
        s,
    );
    lemma_header_bitmap(sv, uv, q);
    assert(row[bitmap_start(types) + q] == bitmap_byte(sv, q));
    assert(present(sv, k) == !(stored is Null));
    assert(k == 8 * q + s);
    match stored {
        ValueView::Null => {},
        ValueView::TypedValue(c) => {
            lemma_sized_values_are_integers(types, values, n, k);
            crate::data_types::lemma_contents_round_trip(c);
            lemma_header_fixed(sv, uv, k, c);
        },
    }
}

/// Reading a variable-size column from a row that the codec wrote gives
/// what was stored.
proof fn lemma_round_trip_unsized(types: Seq<Type>, values: Seq<ValueView>, i: int)
    requires
        values.len() == types.len(),
        0 <= i < types.len(),
        !is_sized(types[i]),
        spec_encode_row(types, values).len() <= MAX_ROW_LEN,
    ensures
        spec_decode_column(types, spec_encode_row(types, values), i) == Ok::<ValueView, ErrorView>(
            spec_cast_value(values[i], types[i]),
        ),
{
    let n = types.len() as int;
    let sv = sized_values(types, values, n);
    let uv = unsized_values(types, values, n);
    let row = spec_encode_row(types, values);
    let stored = spec_cast_value(values[i], types[i]);
    lemma_values_len(types, values, n);
    lemma_values_at(types, values, n, i);
    lemma_counts(types, i);
    lemma_encode_len(sv, uv);
    let m = unsized_before(types, i) as int;
    lemma_payload_end(sv, uv, m);
    lemma_payload_end(sv, uv, m + 1);
    lemma_row_payload(sv, uv, m);
    lemma_payloads_take(uv, m);
    match stored {
        ValueView::Null => {},
        ValueView::TypedValue(c) => {
            crate::data_types::lemma_contents_round_trip(c);
        },
    }
}

/// Reading a column from a row gives the value that was stored there, cast
/// to the column's type: for every schema and every list of as many values
/// as it has columns, as long as the row is not longer than `MAX_ROW_LEN`.
pub proof fn lemma_row_round_trip(types: Seq<Type>, values: Seq<ValueView>, i: int)
    requires
        values.len() == types.len(),
        0 <= i < types.len(),
        spec_encode_row(types, values).len() <= MAX_ROW_LEN,
    ensures
        spec_decode_column(types, spec_encode_row(types, values), i) == Ok::<ValueView, ErrorView>(
            spec_cast_value(values[i], types[i]),
        ),
{
    if is_sized(types[i]) {
        lemma_round_trip_sized(types, values, i);
    } else {
        lemma_round_trip_unsized(types, values, i);
    }
}

/// A row read back holds the values that went in, where each value was
/// null or of its column's type.
pub proof fn lemma_row_round_trip_typed(types: Seq<Type>, values: Seq<ValueView>, i: int)
    requires
        values.len() == types.len(),
        0 <= i < types.len(),
        spec_encode_row(types, values).len() <= MAX_ROW_LEN,
        match values[i] {
            ValueView::Null => true,
            ValueView::TypedValue(c) => crate::data_types::spec_type_of(c) == types[i],
        },
    ensures
        spec_decode_column(types, spec_encode_row(types, values), i) == Ok::<ValueView, ErrorView>(
            values[i],
        ),
{
    lemma_row_round_trip(types, values, i);
}

// ---------------------------------------------------------------------------
// Names
// ---------------------------------------------------------------------------

/// A name with its table in front, as errors show it.
pub open spec fn spec_qualified(table: Seq<char>, column: Seq<char>) -> Seq<char> {
    table + "."@ + column
}

fn qualified(table: &str, column: &str) -> (name: String)
    ensures
        name@ == spec_qualified(table@, column@),
{
    let mut name = table.to_owned();
    name.append(".");
    name.append(column);
    name
}

/// The column of a schema that a name stands for, where the schema is
/// that of the table `table`: the schema has the column, and the name
/// gives no table or this one; else the name fails with `NoColumn` of the
/// name with its table (this one where it gave none) in front.
pub open spec fn spec_resolve_in_columns(names: Seq<Seq<char>>, table: Seq<char>, name: ColumnNameView) -> Result<
    ResolvedColumnView,
    ErrorView,
> {
    let qualifier = match name.table_name {
        Some(t) => t,
        None => table,
    };
    if qualifier == table && names.contains(name.column_name) {
        Ok(ResolvedColumnView { table_name: qualifier, column_name: name.column_name })
    } else {
        Err(
            ErrorView::Execution(
                ExecutionErrorView::NoColumn(spec_qualified(qualifier, name.column_name)),
            ),
        )
    }
}

/// What each name stands for among the columns of a schema.
pub open spec fn spec_columns_resolver(names: Seq<Seq<char>>, table: Seq<char>) -> crate::Resolver {
    |name: ColumnNameView| spec_resolve_in_columns(names, table, name)
}

impl<'a> TableColumns for (&'a Columns, &'a str) {
    open spec fn columns_wf(&self) -> bool {
        true
    }

    open spec fn spec_resolve_name(&self, name: ColumnNameView) -> Result<
        ResolvedColumnView,
        ErrorView,
    > {
        spec_resolve_in_columns(self.0.spec_names(), self.1@, name)
    }

    fn resolve_name(&self, name: ColumnName) -> (result: Result<ResolvedColumn, Error>) {
        let (table, column) = name.destructure();
        let table: String = match table {
            Some(t) => t,
            None => self.1.to_owned(),
        };
        if str_eq(table.as_str(), self.1) && self.0.contains_column(column.as_str()) {
            Ok(ResolvedColumn::new(table, column))
        } else {
            Err(
                Error::Execution(
                    ExecutionError::NoColumn(qualified(table.as_str(), column.as_str())),
                ),
            )
        }
    }
}

} // verus!
