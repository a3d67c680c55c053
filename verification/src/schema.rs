//! The types of the serialization: what a byte string is read as.

use vstd::prelude::*;

verus! {

/// A type of the serialization, as the contracts speak of it.
pub enum TypeSpec {
    /// An unsigned integer of the given width in bytes, little-endian.
    Uint(nat),
    /// One byte, 0 or 1.
    Boolean,
    /// A fixed number of bits, eight to a byte, the first bit lowest.
    Bitvector(nat),
    /// At most the given number of bits, closed by a single 1 bit.
    Bitlist(nat),
    /// A fixed number of elements of one type.
    Vector(Box<TypeSpec>, nat),
    /// At most the given number of elements of one type.
    List(Box<TypeSpec>, nat),
    /// A fixed sequence of fields, each of its own type.
    Container(Seq<TypeSpec>),
}

/// A type of the serialization.
pub enum SszType {
    Uint(u64),
    Boolean,
    Bitvector(u64),
    Bitlist(u64),
    Vector(Box<SszType>, u64),
    List(Box<SszType>, u64),
    Container(Vec<SszType>),
}

/// The type that a schema value stands for.
pub open spec fn type_of(t: SszType) -> TypeSpec
    decreases t,
{
    match t {
        SszType::Uint(width) => TypeSpec::Uint(width as nat),
        SszType::Boolean => TypeSpec::Boolean,
        SszType::Bitvector(bits) => TypeSpec::Bitvector(bits as nat),
        SszType::Bitlist(limit) => TypeSpec::Bitlist(limit as nat),
        SszType::Vector(elem, count) => TypeSpec::Vector(Box::new(type_of(*elem)), count as nat),
        SszType::List(elem, limit) => TypeSpec::List(Box::new(type_of(*elem)), limit as nat),
        SszType::Container(fields) => TypeSpec::Container(
            Seq::new(
                fields@.len(),
                |k: int|
                    if 0 <= k < fields@.len() {
                        type_of(fields@[k])
                    } else {
                        TypeSpec::Boolean
                    },
            ),
        ),
    }
}

impl View for SszType {
    type V = TypeSpec;

    open spec fn view(&self) -> TypeSpec {
        type_of(*self)
    }
}

/// One more than the largest length that a four-byte offset can express.
pub open spec fn offset_limit() -> nat {
    0x1_0000_0000
}

/// The length of every value of the type, where all its values have one length.
pub open spec fn fixed_len(t: TypeSpec) -> Option<nat>
    decreases t, 0nat,
{
    match t {
        TypeSpec::Uint(width) => Some(width),
        TypeSpec::Boolean => Some(1),
        TypeSpec::Bitvector(bits) => Some((bits + 7) / 8),
        TypeSpec::Bitlist(_) => None,
        TypeSpec::Vector(elem, count) => match fixed_len(*elem) {
            Some(len) => Some(len * count),
            None => None,
        },
        TypeSpec::List(_, _) => None,
        TypeSpec::Container(fields) => if all_fixed(fields, fields.len()) {
            Some(part_pos(fields, fields.len()))
        } else {
            None
        },
    }
}

/// Whether each of the first `n` fields has a fixed length.
pub open spec fn all_fixed(fields: Seq<TypeSpec>, n: nat) -> bool
    decreases fields, n,
{
    if n == 0 || n > fields.len() {
        true
    } else {
        all_fixed(fields, (n - 1) as nat) && fixed_len(fields[n - 1]) is Some
    }
}

/// What a field takes up in the fixed part of its container: its own bytes
/// where its length is fixed, a four-byte offset where it is not.
pub open spec fn part_len(t: TypeSpec) -> nat
    decreases t, 1nat,
{
    match fixed_len(t) {
        Some(len) => len,
        None => 4,
    }
}

/// Where the part of field `k` starts in the fixed part of its container.
pub open spec fn part_pos(fields: Seq<TypeSpec>, k: nat) -> nat
    decreases fields, k,
{
    if k == 0 || k > fields.len() {
        0
    } else {
        part_pos(fields, (k - 1) as nat) + part_len(fields[k - 1])
    }
}



/// Whether a type can be serialized at all: integer widths are powers of two up
/// to 32 bytes, nothing is of length zero, and what offsets have to reach lies
/// below `offset_limit`.
pub open spec fn well_formed(t: TypeSpec) -> bool
    decreases t,
{
    match t {
        TypeSpec::Uint(width) => width == 1 || width == 2 || width == 4 || width == 8 || width == 16
            || width == 32,
        TypeSpec::Boolean => true,
        TypeSpec::Bitvector(bits) => 1 <= bits && (bits + 7) / 8 < offset_limit(),
        TypeSpec::Bitlist(_) => true,
        TypeSpec::Vector(elem, count) => well_formed(*elem) && count >= 1 && part_len(*elem) * count
            < offset_limit(),
        TypeSpec::List(elem, _) => well_formed(*elem),
        TypeSpec::Container(fields) => {
            &&& fields.len() >= 1
            &&& part_pos(fields, fields.len()) < offset_limit()
            &&& forall|k: int| 0 <= k < fields.len() ==> well_formed(#[trigger] fields[k])
        },
    }
}

/// The parts of a container follow one another.
pub proof fn lemma_part_pos_monotonic(fields: Seq<TypeSpec>, j: nat, k: nat)
    requires
        j <= k <= fields.len(),
    ensures
        part_pos(fields, j) <= part_pos(fields, k),
    decreases k,
{
    if j < k {
        lemma_part_pos_monotonic(fields, j, (k - 1) as nat);
    }
}

/// Where every field up to `n` is of fixed length, each of them is.
pub proof fn lemma_all_fixed(fields: Seq<TypeSpec>, n: nat, k: int)
    requires
        all_fixed(fields, n),
        0 <= k < n <= fields.len(),
    ensures
        fixed_len(fields[k]) is Some,
    decreases n,
{
    if k < n - 1 {
        lemma_all_fixed(fields, (n - 1) as nat, k);
    }
}

/// A well-formed type of fixed length has at least one byte, and fewer than
/// `offset_limit`.
pub proof fn lemma_fixed_len_bounds(t: TypeSpec)
    requires
        well_formed(t),
    ensures
        fixed_len(t) matches Some(len) ==> 1 <= len < offset_limit(),
        1 <= part_len(t) < offset_limit(),
    decreases t,
{
    match t {
        TypeSpec::Vector(elem, count) => {
            lemma_fixed_len_bounds(*elem);
            if let Some(len) = fixed_len(*elem) {
                assert(len * count >= 1) by (nonlinear_arith)
                    requires
                        len >= 1,
                        count >= 1,
                ;
            }
        },
        TypeSpec::Container(fields) => {
            let n = fields.len();
            lemma_fixed_len_bounds(fields[n - 1]);
            lemma_part_pos_monotonic(fields, (n - 1) as nat, n);
        },
        _ => {},
    }
}

/// The sum of the first `n` of a sequence of lengths.
pub open spec fn sum_to(lens: Seq<nat>, n: nat) -> nat
    decreases n,
{
    if n == 0 || n > lens.len() {
        0
    } else {
        sum_to(lens, (n - 1) as nat) + lens[n - 1]
    }
}

/// Where each field takes up the length given for it, the parts start at the
/// sums of those lengths.
pub proof fn lemma_part_pos_sum(fields: Seq<TypeSpec>, lens: Seq<nat>, n: nat)
    requires
        n <= fields.len(),
        fields.len() == lens.len(),
        forall|k: int| 0 <= k < fields.len() ==> part_len(#[trigger] fields[k]) == lens[k],
    ensures
        part_pos(fields, n) == sum_to(lens, n),
    decreases n,
{
    if n > 0 {
        lemma_part_pos_sum(fields, lens, (n - 1) as nat);
    }
}

/// Where each of the first `n` fields is of fixed length, all of them are.
pub proof fn lemma_all_fixed_intro(fields: Seq<TypeSpec>, n: nat)
    requires
        n <= fields.len(),
        forall|k: int| 0 <= k < n ==> fixed_len(#[trigger] fields[k]) is Some,
    ensures
        all_fixed(fields, n),
    decreases n,
{
    if n > 0 {
        lemma_all_fixed_intro(fields, (n - 1) as nat);
    }
}

/// A container of well-formed fields of the fixed lengths given is well formed,
/// and its length is their sum.
pub proof fn lemma_fixed_container(fields: Seq<TypeSpec>, lens: Seq<nat>)
    requires
        1 <= fields.len(),
        fields.len() == lens.len(),
        forall|k: int|
            0 <= k < fields.len() ==> well_formed(#[trigger] fields[k]) && fixed_len(fields[k])
                == Some(lens[k]),
        sum_to(lens, lens.len()) < offset_limit(),
    ensures
        well_formed(TypeSpec::Container(fields)),
        fixed_len(TypeSpec::Container(fields)) == Some(sum_to(lens, lens.len())),
{
    lemma_part_pos_sum(fields, lens, fields.len());
    lemma_all_fixed_intro(fields, fields.len());
}

/// A container of well-formed fields that take up the lengths given is well
/// formed, and its fixed part is as long as their sum.
pub proof fn lemma_container(fields: Seq<TypeSpec>, lens: Seq<nat>)
    requires
        1 <= fields.len(),
        fields.len() == lens.len(),
        forall|k: int|
            0 <= k < fields.len() ==> well_formed(#[trigger] fields[k]) && part_len(fields[k])
                == lens[k],
        sum_to(lens, lens.len()) < offset_limit(),
    ensures
        well_formed(TypeSpec::Container(fields)),
        part_pos(fields, fields.len()) == sum_to(lens, lens.len()),
{
    lemma_part_pos_sum(fields, lens, fields.len());
}

/// A container with a field of no fixed length has no fixed length.
pub proof fn lemma_variable_container(fields: Seq<TypeSpec>, k: int)
    requires
        0 <= k < fields.len(),
        fixed_len(fields[k]) is None,
    ensures
        fixed_len(TypeSpec::Container(fields)) is None,
        part_len(TypeSpec::Container(fields)) == 4,
{
    if all_fixed(fields, fields.len()) {
        lemma_all_fixed(fields, fields.len(), k);
    }
}

/// The place of a field in the fixed part of its container.
pub struct FieldPart {
    /// Where the field's part starts.
    pub start: u64,
    /// The field's length where that is fixed.
    pub len: Option<u64>,
}

/// A length as the contracts speak of it.
pub open spec fn len_view(len: Option<u64>) -> Option<nat> {
    match len {
        Some(l) => Some(l as nat),
        None => None,
    }
}

/// Whether `parts` gives the place of each of the first `n` fields.
pub open spec fn parts_of(parts: Seq<FieldPart>, fields: Seq<TypeSpec>, n: nat) -> bool {
    &&& parts.len() == n
    &&& forall|k: int|
        0 <= k < n ==> (#[trigger] parts[k]).start == part_pos(fields, k as nat) && len_view(
            parts[k].len,
        ) == fixed_len(fields[k])
}

impl SszType {
    /// The length of every value of the type, where all its values have one
    /// length.
    pub fn fixed_len(&self) -> (len: Option<u64>)
        requires
            well_formed(self@),
        ensures
            len_view(len) == fixed_len(self@),
        decreases self,
    {
        match self {
            SszType::Uint(width) => Some(*width),
            SszType::Boolean => Some(1),
            SszType::Bitvector(bits) => Some(*bits / 8 + if *bits % 8 == 0 {
                0
            } else {
                1
            }),
            SszType::Bitlist(_) => None,
            SszType::Vector(elem, count) => {
                match elem.fixed_len() {
                    Some(len) => {
                        assert(len * *count < offset_limit());
                        Some(len * *count)
                    },
                    None => None,
                }
            },
            SszType::List(_, _) => None,
            SszType::Container(fields) => {
                let ghost types = self@->Container_0;
                let (parts, total) = Self::field_parts(fields);
                let mut k: usize = 0;
                while k < parts.len()
                    invariant
                        k <= parts.len(),
                        self@ == TypeSpec::Container(types),
                        types.len() == fields.len(),
                        parts.len() == fields.len(),
                        parts_of(parts@, types, fields.len() as nat),
                        all_fixed(types, k as nat),
                    decreases parts.len() - k,
                {
                    if parts[k].len.is_none() {
                        proof {
                            if all_fixed(types, types.len()) {
                                lemma_all_fixed(types, types.len(), k as int);
                            }
                        }
                        return None;
                    }
                    k += 1;
                }
                Some(total)
            },
        }
    }

    /// The place of each field in the fixed part of a container, and the length
    /// of that part.
    pub fn field_parts(fields: &Vec<SszType>) -> (r: (Vec<FieldPart>, u64))
        requires
            well_formed(SszType::Container(*fields)@),
        ensures
            parts_of(r.0@, SszType::Container(*fields)@->Container_0, fields.len() as nat),
            r.1 == part_pos(SszType::Container(*fields)@->Container_0, fields.len() as nat),
        decreases fields,
    {
        let ghost types = SszType::Container(*fields)@->Container_0;
        let mut parts: Vec<FieldPart> = Vec::with_capacity(fields.len());
        let mut start: u64 = 0;
        let mut k: usize = 0;
        while k < fields.len()
            invariant
                k <= fields.len(),
                types == SszType::Container(*fields)@->Container_0,
                types.len() == fields.len(),
                well_formed(TypeSpec::Container(types)),
                parts_of(parts@, types, k as nat),
                start == part_pos(types, k as nat),
            decreases fields.len() - k,
        {
            assert(types[k as int] == fields@[k as int]@);
            let len = fields[k].fixed_len();
            proof {
                lemma_fixed_len_bounds(types[k as int]);
                lemma_part_pos_monotonic(types, (k + 1) as nat, types.len());
            }
            let part = match len {
                Some(l) => l,
                None => 4,
            };
            parts.push(FieldPart { start, len });
            start = start + part;
            k += 1;
        }
        (parts, start)
    }
}



impl SszType {
    /// Whether the type is well formed.
    pub fn is_well_formed(&self) -> (ok: bool)
        ensures
            ok == well_formed(self@),
    {
        self.checked_len().is_some()
    }

    /// The fixed length of the type, if it has one, where the type is well
    /// formed; nothing where it is not.
    pub fn checked_len(&self) -> (len: Option<Option<u64>>)
        ensures
            (len is Some) <==> well_formed(self@),
            len matches Some(l) ==> len_view(l) == fixed_len(self@),
        decreases self, 0nat,
    {
        match self {
            SszType::Uint(width) => {
                let w = *width;
                if w == 1 || w == 2 || w == 4 || w == 8 || w == 16 || w == 32 {
                    Some(Some(w))
                } else {
                    None
                }
            },
            SszType::Boolean => Some(Some(1)),
            SszType::Bitvector(bits) => {
                let bytes = *bits / 8 + if *bits % 8 == 0 {
                    0
                } else {
                    1
                };
                if *bits >= 1 && bytes < 0x1_0000_0000 {
                    Some(Some(bytes))
                } else {
                    None
                }
            },
            SszType::Bitlist(_) => Some(None),
            SszType::Vector(elem, count) => {
                let inner = match elem.checked_len() {
                    Some(l) => l,
                    None => {
                        return None;
                    },
                };
                proof {
                    lemma_fixed_len_bounds(elem@);
                }
                let part: u64 = match inner {
                    Some(l) => l,
                    None => 4,
                };
                assert(part * *count <= 0xFFFF_FFFF * 0xFFFF_FFFF_FFFF_FFFF) by (nonlinear_arith)
                    requires
                        part <= 0xFFFF_FFFF,
                        *count <= 0xFFFF_FFFF_FFFF_FFFF,
                ;
                if *count < 1 || (part as u128) * (*count as u128) >= 0x1_0000_0000 {
                    return None;
                }
                match inner {
                    Some(l) => Some(Some(l * *count)),
                    None => Some(None),
                }
            },
            SszType::List(elem, _) => {
                match elem.checked_len() {
                    Some(_) => Some(None),
                    None => None,
                }
            },
            SszType::Container(fields) => Self::checked_fields_len(fields),
        }
    }

    /// The fixed length of the container with these fields, as `checked_len`
    /// gives it.
    pub fn checked_fields_len(fields: &Vec<SszType>) -> (len: Option<Option<u64>>)
        ensures
            (len is Some) <==> well_formed(SszType::Container(*fields)@),
            len matches Some(l) ==> len_view(l) == fixed_len(SszType::Container(*fields)@),
        decreases fields, 1nat,
    {
        let ghost types = SszType::Container(*fields)@->Container_0;
        if fields.len() == 0 {
            return None;
        }
        let mut pos: u64 = 0;
        let mut fixed = true;
        let mut k: usize = 0;
        while k < fields.len()
            invariant
                k <= fields.len(),
                types == SszType::Container(*fields)@->Container_0,
                types.len() == fields.len(),
                pos == part_pos(types, k as nat),
                pos < offset_limit(),
                fixed == all_fixed(types, k as nat),
                forall|j: int| 0 <= j < k ==> well_formed(#[trigger] types[j]),
            decreases fields.len() - k,
        {
            assert(types[k as int] == fields@[k as int]@);
            let part = match fields[k].checked_len() {
                Some(l) => l,
                None => {
                    return None;
                },
            };
            proof {
                lemma_fixed_len_bounds(types[k as int]);
            }
            let size: u64 = match part {
                Some(l) => l,
                None => 4,
            };
            if pos + size >= 0x1_0000_0000 {
                proof {
                    lemma_part_pos_monotonic(types, (k + 1) as nat, types.len());
                }
                return None;
            }
            pos = pos + size;
            fixed = fixed && part.is_some();
            k += 1;
        }
        if fixed {
            Some(Some(pos))
        } else {
            Some(None)
        }
    }
}

} // verus!
