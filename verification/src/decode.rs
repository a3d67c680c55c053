//! Which byte strings are values of a type, and where their parts lie.

use vstd::prelude::*;
use vstd::slice::slice_subrange;
use crate::merkle::{gindex_level, gindex_level_of, two_pow};
use crate::schema::{
    all_fixed, fixed_len, len_view, lemma_all_fixed, lemma_fixed_len_bounds,
    lemma_part_pos_monotonic, offset_limit, part_len, part_pos, parts_of, well_formed, FieldPart,
    SszType, TypeSpec,
};

verus! {

/// The four-byte little-endian number at `pos`.
pub open spec fn u32_le(b: Seq<u8>, pos: int) -> nat {
    (b[pos] + 256 * b[pos + 1] + 65536 * b[pos + 2] + 16777216 * b[pos + 3]) as nat
}

/// Reads the four-byte little-endian number at `pos`.
pub fn read_offset(b: &[u8], pos: usize) -> (v: u64)
    requires
        pos + 4 <= b@.len(),
    ensures
        v == u32_le(b@, pos as int),
        v < offset_limit(),
{
    let b0 = b[pos] as u64;
    let b1 = b[pos + 1] as u64;
    let b2 = b[pos + 2] as u64;
    let b3 = b[pos + 3] as u64;
    b0 + 256 * b1 + 65536 * b2 + 16777216 * b3
}

/// Whether the start of `b` fits a sequence of elements: a whole number of
/// them where their length is fixed; where it is not, nothing at all or a table
/// of four-byte offsets, the first of which gives the length of the table.
pub open spec fn seq_header_ok(elem_len: Option<nat>, b: Seq<u8>) -> bool {
    match elem_len {
        Some(len) => len > 0 && b.len() % len == 0,
        None => b.len() == 0 || (b.len() >= 4 && u32_le(b, 0) % 4 == 0 && 4 <= u32_le(b, 0)
            <= b.len()),
    }
}

/// The number of elements that `b` holds.
pub open spec fn elem_count(elem_len: Option<nat>, b: Seq<u8>) -> nat {
    match elem_len {
        Some(len) => if len > 0 {
            b.len() / len
        } else {
            0
        },
        None => if b.len() < 4 {
            0
        } else {
            u32_le(b, 0) / 4
        },
    }
}

/// Where element `i` starts.
pub open spec fn elem_start(elem_len: Option<nat>, b: Seq<u8>, i: int) -> int {
    match elem_len {
        Some(len) => i * len,
        None => u32_le(b, 4 * i) as int,
    }
}

/// Where element `i` ends: where the next one starts, or with `b`.
pub open spec fn elem_end(elem_len: Option<nat>, b: Seq<u8>, i: int) -> int {
    match elem_len {
        Some(len) => (i + 1) * len,
        None => if i + 1 < elem_count(elem_len, b) {
            u32_le(b, 4 * (i + 1)) as int
        } else {
            b.len() as int
        },
    }
}

/// The bytes of element `i`.
pub open spec fn elem_bytes(elem_len: Option<nat>, b: Seq<u8>, i: int) -> Seq<u8> {
    b.subrange(elem_start(elem_len, b, i), elem_end(elem_len, b, i))
}

/// Whether `b` divides into elements: its start fits, and no element ends
/// before it starts.
pub open spec fn elems_laid_out(elem_len: Option<nat>, b: Seq<u8>) -> bool {
    &&& seq_header_ok(elem_len, b)
    &&& forall|i: int|
        0 <= i < elem_count(elem_len, b) ==> #[trigger] elem_start(elem_len, b, i) <= elem_end(
            elem_len,
            b,
            i,
        )
}

/// Every element of a sequence that is laid out ends within the bytes.
pub proof fn lemma_elem_end_bounded(elem_len: Option<nat>, b: Seq<u8>, i: int)
    requires
        elems_laid_out(elem_len, b),
        0 <= i < elem_count(elem_len, b),
    ensures
        0 <= elem_start(elem_len, b, i) <= elem_end(elem_len, b, i) <= b.len(),
    decreases elem_count(elem_len, b) - i,
{
    match elem_len {
        Some(len) => {
            let count = b.len() / len;
            assert((i + 1) * len <= b.len() && 0 <= i * len <= (i + 1) * len) by (nonlinear_arith)
                requires
                    0 <= i < count,
                    count == b.len() / len,
                    len > 0,
            ;
        },
        None => {
            assert(elem_start(elem_len, b, i) <= elem_end(elem_len, b, i));
            if i + 1 < elem_count(elem_len, b) {
                lemma_elem_end_bounded(elem_len, b, i + 1);
                assert(elem_end(elem_len, b, i) == elem_start(elem_len, b, i + 1));
            }
        },
    }
}

/// The first offset at or after field `k` of a container, or the length of the
/// bytes where no field from `k` on has an offset: where what comes before
/// ends.
pub open spec fn next_offset(fields: Seq<TypeSpec>, b: Seq<u8>, k: nat) -> nat
    decreases fields.len() - k,
{
    if k >= fields.len() {
        b.len()
    } else if fixed_len(fields[k as int]) is None {
        u32_le(b, part_pos(fields, k) as int)
    } else {
        next_offset(fields, b, k + 1)
    }
}

/// Where the fields from `j` up to `k` are of fixed length and field `k` is
/// not, the first offset at or after `j` is that of field `k`.
pub proof fn lemma_next_offset_skips_fixed(fields: Seq<TypeSpec>, b: Seq<u8>, j: nat, k: nat)
    requires
        j <= k < fields.len(),
        forall|i: int| j <= i < k ==> fixed_len(#[trigger] fields[i]) is Some,
        fixed_len(fields[k as int]) is None,
    ensures
        next_offset(fields, b, j) == u32_le(b, part_pos(fields, k) as int),
    decreases k - j,
{
    if j < k {
        assert(fixed_len(fields[j as int]) is Some);
        lemma_next_offset_skips_fixed(fields, b, j + 1, k);
    }
}

/// Where field `k` starts: at its part where its length is fixed, at its offset
/// where it is not.
pub open spec fn field_start(fields: Seq<TypeSpec>, b: Seq<u8>, k: int) -> int {
    match fixed_len(fields[k]) {
        Some(_) => part_pos(fields, k as nat) as int,
        None => u32_le(b, part_pos(fields, k as nat) as int) as int,
    }
}

/// Where field `k` ends.
pub open spec fn field_end(fields: Seq<TypeSpec>, b: Seq<u8>, k: int) -> int {
    match fixed_len(fields[k]) {
        Some(len) => (part_pos(fields, k as nat) + len) as int,
        None => next_offset(fields, b, (k + 1) as nat) as int,
    }
}

/// The bytes of field `k`.
pub open spec fn field_bytes(fields: Seq<TypeSpec>, b: Seq<u8>, k: int) -> Seq<u8> {
    b.subrange(field_start(fields, b, k), field_end(fields, b, k))
}

/// Whether `b` divides into the fields of a container: the fixed part fits, the
/// first offset points to its end, and no field ends before it starts.
pub open spec fn fields_laid_out(fields: Seq<TypeSpec>, b: Seq<u8>) -> bool {
    &&& part_pos(fields, fields.len()) <= b.len()
    &&& next_offset(fields, b, 0) == part_pos(fields, fields.len())
    &&& forall|k: int|
        0 <= k < fields.len() ==> #[trigger] field_start(fields, b, k) <= field_end(fields, b, k)
}

/// In a container that is laid out, nothing ends beyond the bytes.
pub proof fn lemma_next_offset_bounded(fields: Seq<TypeSpec>, b: Seq<u8>, k: nat)
    requires
        fields_laid_out(fields, b),
        k <= fields.len(),
    ensures
        next_offset(fields, b, k) <= b.len(),
    decreases fields.len() - k,
{
    if k < fields.len() {
        lemma_next_offset_bounded(fields, b, k + 1);
        if fixed_len(fields[k as int]) is None {
            assert(field_start(fields, b, k as int) <= field_end(fields, b, k as int));
        }
    }
}

/// Every field of a container that is laid out lies within the bytes.
pub proof fn lemma_field_end_bounded(fields: Seq<TypeSpec>, b: Seq<u8>, k: int)
    requires
        fields_laid_out(fields, b),
        0 <= k < fields.len(),
    ensures
        0 <= field_start(fields, b, k) <= field_end(fields, b, k) <= b.len(),
{
    assert(field_start(fields, b, k) <= field_end(fields, b, k));
    lemma_next_offset_bounded(fields, b, (k + 1) as nat);
    lemma_part_pos_monotonic(fields, (k + 1) as nat, fields.len());
    assert(part_pos(fields, (k + 1) as nat) == part_pos(fields, k as nat) + part_len(fields[k]));
}

/// Whether `b` is the serialization of a value of type `t`.
pub open spec fn valid(t: TypeSpec, b: Seq<u8>) -> bool
    decreases t, 0nat,
{
    match t {
        TypeSpec::Uint(width) => b.len() == width,
        TypeSpec::Boolean => b.len() == 1 && b[0] <= 1,
        TypeSpec::Bitvector(bits) => {
            &&& b.len() == (bits + 7) / 8
            &&& b.len() >= 1
            &&& bits % 8 != 0 ==> b.last() < two_pow(bits % 8)
        },
        TypeSpec::Bitlist(limit) => {
            &&& b.len() >= 1
            &&& b.last() >= 1
            &&& 8 * (b.len() - 1) + gindex_level(b.last() as nat) <= limit
        },
        TypeSpec::Vector(elem, count) => elems_valid(*elem, b) && elem_count(fixed_len(*elem), b)
            == count,
        TypeSpec::List(elem, limit) => elems_valid(*elem, b) && elem_count(fixed_len(*elem), b)
            <= limit,
        TypeSpec::Container(fields) => {
            &&& fields_laid_out(fields, b)
            &&& forall|k: int|
                0 <= k < fields.len() ==> valid(fields[k], #[trigger] field_bytes(fields, b, k))
        },
    }
}

/// Whether `b` divides into elements of type `elem`, each one a value of it.
pub open spec fn elems_valid(elem: TypeSpec, b: Seq<u8>) -> bool
    decreases elem, 1nat,
{
    &&& elems_laid_out(fixed_len(elem), b)
    &&& forall|i: int|
        0 <= i < elem_count(fixed_len(elem), b) ==> valid(
            elem,
            #[trigger] elem_bytes(fixed_len(elem), b, i),
        )
}



/// In a container whose fields are all of fixed length, nothing has an offset.
pub proof fn lemma_next_offset_all_fixed(fields: Seq<TypeSpec>, b: Seq<u8>, k: nat)
    requires
        all_fixed(fields, fields.len()),
        k <= fields.len(),
    ensures
        next_offset(fields, b, k) == b.len(),
    decreases fields.len() - k,
{
    if k < fields.len() {
        lemma_all_fixed(fields, fields.len(), k as int);
        lemma_next_offset_all_fixed(fields, b, k + 1);
    }
}

/// The serialization of a value of a type of fixed length has that length.
pub proof fn lemma_valid_fixed_len(t: TypeSpec, b: Seq<u8>)
    requires
        valid(t, b),
        fixed_len(t) is Some,
    ensures
        b.len() == fixed_len(t)->Some_0,
{
    match t {
        TypeSpec::Vector(elem, count) => {
            let len = fixed_len(*elem)->Some_0;
            lemma_elems_laid_out(*elem, b);
            assert(b.len() == len * count) by (nonlinear_arith)
                requires
                    len > 0,
                    b.len() % len == 0,
                    b.len() / len == count,
            ;
        },
        TypeSpec::Container(fields) => {
            lemma_next_offset_all_fixed(fields, b, 0);
        },
        _ => {},
    }
}

/// Elements that are valid are laid out.
pub proof fn lemma_elems_laid_out(elem: TypeSpec, b: Seq<u8>)
    requires
        elems_valid(elem, b),
    ensures
        elems_laid_out(fixed_len(elem), b),
{
}

/// Two to the power `e`, for a bit position within a byte.
fn bit_weight(e: u64) -> (w: u8)
    requires
        e < 8,
    ensures
        w == two_pow(e as nat),
{
    proof {
        reveal_with_fuel(two_pow, 8);
    }
    if e == 0 {
        1
    } else if e == 1 {
        2
    } else if e == 2 {
        4
    } else if e == 3 {
        8
    } else if e == 4 {
        16
    } else if e == 5 {
        32
    } else if e == 6 {
        64
    } else {
        128
    }
}

/// The number of elements that `b` holds, where its start fits a sequence.
pub(crate) fn seq_header(elem_len: Option<u64>, b: &[u8]) -> (count: Option<usize>)
    requires
        elem_len matches Some(len) ==> len >= 1,
    ensures
        (count is Some) <==> seq_header_ok(len_view(elem_len), b@),
        count matches Some(n) ==> n == elem_count(len_view(elem_len), b@),
{
    let total = b.len() as u64;
    match elem_len {
        Some(len) => {
            if total % len == 0 {
                Some((total / len) as usize)
            } else {
                None
            }
        },
        None => {
            if b.len() == 0 {
                Some(0)
            } else if b.len() < 4 {
                None
            } else {
                let first = read_offset(b, 0);
                if first % 4 == 0 && 4 <= first && first <= total {
                    Some((first / 4) as usize)
                } else {
                    None
                }
            }
        },
    }
}

/// Where element `i` starts and ends.
pub(crate) fn elem_range(elem_len: Option<u64>, b: &[u8], count: usize, i: usize) -> (r: (u64, u64))
    requires
        elem_len matches Some(len) ==> len >= 1,
        seq_header_ok(len_view(elem_len), b@),
        count == elem_count(len_view(elem_len), b@),
        i < count,
    ensures
        r.0 == elem_start(len_view(elem_len), b@, i as int),
        r.1 == elem_end(len_view(elem_len), b@, i as int),
{
    let total = b.len();
    match elem_len {
        Some(len) => {
            assert((i + 1) * len <= b@.len() && 0 <= i * len && (i + 1) * len == i * len + len)
                by (nonlinear_arith)
                requires
                    0 <= i < count,
                    count == b@.len() / (len as nat),
                    len > 0,
            ;
            let start = (i as u64) * len;
            (start, start + len)
        },
        None => {
            let start = read_offset(b, 4 * i);
            let end = if i + 1 < count {
                read_offset(b, 4 * (i + 1))
            } else {
                b.len() as u64
            };
            (start, end)
        },
    }
}

/// The first offset at or after field `k`, or the length of the bytes.
fn read_next_offset(parts: &Vec<FieldPart>, b: &[u8], k: usize, Ghost(fields): Ghost<Seq<TypeSpec>>)
    -> (off: u64)
    requires
        parts_of(parts@, fields, fields.len()),
        part_pos(fields, fields.len()) <= b@.len(),
        k <= fields.len(),
    ensures
        off == next_offset(fields, b@, k as nat),
{
    let total = b.len();
    let mut j = k;
    while j < parts.len()
        invariant
            k <= j <= parts.len(),
            b@.len() == total,
            parts.len() == fields.len(),
            parts_of(parts@, fields, fields.len()),
            part_pos(fields, fields.len()) <= b@.len(),
            next_offset(fields, b@, j as nat) == next_offset(fields, b@, k as nat),
        decreases parts.len() - j,
    {
        if parts[j].len.is_none() {
            proof {
                lemma_part_pos_monotonic(fields, (j + 1) as nat, fields.len());
                assert(part_pos(fields, (j + 1) as nat) == part_pos(fields, j as nat) + part_len(
                    fields[j as int],
                ));
            }
            return read_offset(b, parts[j].start as usize);
        }
        j += 1;
    }
    b.len() as u64
}

/// Where field `k` starts and ends.
pub(crate) fn field_range(
    parts: &Vec<FieldPart>,
    b: &[u8],
    k: usize,
    Ghost(fields): Ghost<Seq<TypeSpec>>,
) -> (r: (u64, u64))
    requires
        parts_of(parts@, fields, fields.len()),
        part_pos(fields, fields.len()) <= b@.len(),
        part_pos(fields, fields.len()) < offset_limit(),
        k < fields.len(),
    ensures
        r.0 == field_start(fields, b@, k as int),
        r.1 == field_end(fields, b@, k as int),
{
    proof {
        lemma_part_pos_monotonic(fields, (k + 1) as nat, fields.len());
        assert(part_pos(fields, (k + 1) as nat) == part_pos(fields, k as nat) + part_len(
            fields[k as int],
        ));
    }
    let total = b.len();
    let count = parts.len();
    let start = parts[k].start;
    match parts[k].len {
        Some(len) => (start, start + len),
        None => (read_offset(b, start as usize), read_next_offset(parts, b, k + 1, Ghost(fields))),
    }
}

impl SszType {
    /// Whether `b` is the serialization of a value of this type.
    pub fn is_valid(&self, b: &[u8]) -> (ok: bool)
        requires
            well_formed(self@),
        ensures
            ok == valid(self@, b@),
        decreases self, 0nat,
    {
        match self {
            SszType::Uint(width) => b.len() as u64 == *width,
            SszType::Boolean => b.len() == 1 && b[0] <= 1,
            SszType::Bitvector(bits) => {
                let rest = *bits % 8;
                let need = *bits / 8 + if rest == 0 {
                    0
                } else {
                    1
                };
                if b.len() as u64 != need {
                    return false;
                }
                rest == 0 || b[b.len() - 1] < bit_weight(rest)
            },
            SszType::Bitlist(limit) => {
                if b.len() == 0 || b[b.len() - 1] == 0 {
                    return false;
                }
                let (top, _) = gindex_level_of(b[b.len() - 1] as usize);
                8 * ((b.len() - 1) as u128) + (top as u128) <= *limit as u128
            },
            SszType::Vector(elem, count) => {
                match Self::count_elems(elem, b) {
                    Some(n) => n as u64 == *count,
                    None => false,
                }
            },
            SszType::List(elem, limit) => {
                match Self::count_elems(elem, b) {
                    Some(n) => n as u64 <= *limit,
                    None => false,
                }
            },
            SszType::Container(fields) => Self::fields_valid(fields, b),
        }
    }

    /// The number of elements of type `elem` that `b` holds, where it divides
    /// into such elements and each is a value of the type.
    pub fn count_elems(elem: &SszType, b: &[u8]) -> (count: Option<usize>)
        requires
            well_formed(elem@),
        ensures
            (count is Some) <==> elems_valid(elem@, b@),
            count matches Some(n) ==> n == elem_count(fixed_len(elem@), b@),
        decreases elem, 1nat,
    {
        let elem_len = elem.fixed_len();
        proof {
            lemma_fixed_len_bounds(elem@);
        }
        let count = match seq_header(elem_len, b) {
            Some(n) => n,
            None => {
                return None;
            },
        };
        let ghost len = fixed_len(elem@);
        if let SszType::Uint(width) = elem {
            assert forall|i: int| 0 <= i < count implies #[trigger] elem_start(len, b@, i)
                <= elem_end(len, b@, i) by {
                assert(i * (*width as nat) <= (i + 1) * (*width as nat)) by (nonlinear_arith)
                    requires
                        0 <= i,
                ;
            }
            assert forall|i: int| 0 <= i < count implies valid(
                elem@,
                #[trigger] elem_bytes(len, b@, i),
            ) by {
                lemma_elem_end_bounded(len, b@, i);
                assert((i + 1) * (*width as nat) - i * (*width as nat) == *width as nat)
                    by (nonlinear_arith);
            }
            return Some(count);
        }
        let mut i: usize = 0;
        while i < count
            invariant
                i <= count,
                well_formed(elem@),
                len == fixed_len(elem@),
                len == len_view(elem_len),
                elem_len matches Some(l) ==> l >= 1,
                seq_header_ok(len, b@),
                count == elem_count(len, b@),
                forall|j: int|
                    0 <= j < i ==> #[trigger] elem_start(len, b@, j) <= elem_end(len, b@, j),
                forall|j: int| 0 <= j < i ==> valid(elem@, #[trigger] elem_bytes(len, b@, j)),
            decreases count - i,
        {
            let (start, end) = elem_range(elem_len, b, count, i);
            if start > end || end > b.len() as u64 {
                proof {
                    if elems_laid_out(len, b@) {
                        lemma_elem_end_bounded(len, b@, i as int);
                    }
                }
                return None;
            }
            let part = slice_subrange(b, start as usize, end as usize);
            if !elem.is_valid(part) {
                assert(!valid(elem@, elem_bytes(len, b@, i as int)));
                return None;
            }
            i += 1;
        }
        Some(count)
    }

    /// Whether `b` is the serialization of a container with these fields.
    pub fn fields_valid(fields: &Vec<SszType>, b: &[u8]) -> (ok: bool)
        requires
            well_formed(SszType::Container(*fields)@),
        ensures
            ok == valid(SszType::Container(*fields)@, b@),
        decreases fields, 1nat,
    {
        let ghost types = SszType::Container(*fields)@->Container_0;
        let (parts, total) = Self::field_parts(fields);
        if (b.len() as u64) < total {
            return false;
        }
        let first = read_next_offset(&parts, b, 0, Ghost(types));
        if first != total {
            return false;
        }
        let mut k: usize = 0;
        while k < fields.len()
            invariant
                k <= fields.len(),
                types == SszType::Container(*fields)@->Container_0,
                types.len() == fields.len(),
                well_formed(TypeSpec::Container(types)),
                parts_of(parts@, types, types.len()),
                part_pos(types, types.len()) <= b@.len(),
                next_offset(types, b@, 0) == part_pos(types, types.len()),
                forall|j: int|
                    0 <= j < k ==> #[trigger] field_start(types, b@, j) <= field_end(types, b@, j),
                forall|j: int| 0 <= j < k ==> valid(types[j], #[trigger] field_bytes(types, b@, j)),
            decreases fields.len() - k,
        {
            let (start, end) = field_range(&parts, b, k, Ghost(types));
            if start > end || end > b.len() as u64 {
                proof {
                    if fields_laid_out(types, b@) {
                        lemma_field_end_bounded(types, b@, k as int);
                    }
                }
                return false;
            }
            let part = slice_subrange(b, start as usize, end as usize);
            assert(types[k as int] == fields@[k as int]@);
            if !fields[k].is_valid(part) {
                assert(!valid(types[k as int], field_bytes(types, b@, k as int)));
                return false;
            }
            k += 1;
        }
        true
    }
}

} // verus!
