//! The elements of a typed array as bytes, as they lie in memory.

use crate::marshal::native::{Buffer, ElemKind};
use vstd::prelude::*;
use vstd::slice::slice_subrange;

verus! {

/// The weight of the byte at position `i` of a number, lowest first.
pub open spec fn weight(i: nat) -> nat {
    if i == 0 {
        0x1
    } else if i == 1 {
        0x100
    } else if i == 2 {
        0x1_0000
    } else if i == 3 {
        0x100_0000
    } else if i == 4 {
        0x1_0000_0000
    } else if i == 5 {
        0x100_0000_0000
    } else if i == 6 {
        0x1_0000_0000_0000
    } else if i == 7 {
        0x100_0000_0000_0000
    } else {
        0x1_0000_0000_0000_0000
    }
}

/// The byte at position `i` of a bit pattern, lowest first.
pub open spec fn byte_of(bits: u64, i: nat) -> u8 {
    ((bits as nat / weight(i)) % 0x100) as u8
}

/// The lowest `size` bytes of a bit pattern, lowest first.
pub open spec fn little_endian(bits: u64, size: nat) -> Seq<u8> {
    Seq::new(size, |i: int| byte_of(bits, i as nat))
}

/// The lowest `size` bytes of a bit pattern, highest first.
pub open spec fn big_endian(bits: u64, size: nat) -> Seq<u8> {
    Seq::new(size, |i: int| byte_of(bits, (size - 1 - i) as nat))
}

/// Whether `bytes` are the lowest bytes of a bit pattern in one of the two
/// byte orders.
pub open spec fn encodes(bytes: Seq<u8>, bits: u64, size: nat) -> bool {
    bytes == little_endian(bits, size) || bytes == big_endian(bits, size)
}

/// The bytes of the element at position `i`, where each element takes
/// `size` bytes.
pub open spec fn chunk(bytes: Seq<u8>, i: int, size: nat) -> Seq<u8> {
    bytes.subrange(i * size, (i + 1) * size)
}

/// Whether `bytes` are the elements `bits`, each of `size` bytes, one
/// after the other and all in the same byte order.
pub open spec fn laid_out(bits: Seq<u64>, size: nat, bytes: Seq<u8>) -> bool {
    &&& bytes.len() == bits.len() * size
    &&& {
        ||| forall|i: int|
            0 <= i < bits.len() ==> #[trigger] chunk(bytes, i, size) == little_endian(bits[i], size)
        ||| forall|i: int|
            0 <= i < bits.len() ==> #[trigger] chunk(bytes, i, size) == big_endian(bits[i], size)
    }
}

/// One byte is the same in both byte orders.
pub proof fn lemma_one_byte(x: u8)
    ensures
        little_endian(x as u64, 1) == seq![x],
        big_endian(x as u64, 1) == seq![x],
{
    assert(byte_of(x as u64, 0) == x);
    assert(little_endian(x as u64, 1) =~= seq![x]);
    assert(big_endian(x as u64, 1) =~= seq![x]);
}

/// `bytemuck::cast_slice` from bytes to bytes: the same bytes.
#[verifier::external_body]
fn cast_slice_u8(data: &[u8]) -> (r: Vec<u8>)
    ensures
        r@ == data@,
{
    bytemuck::cast_slice::<u8, u8>(data).to_vec()
}

/// `bytemuck::cast_slice` from 16-bit words to bytes: the memory of the
/// words, which holds them one after the other, two bytes each, in the
/// byte order of the machine.
#[verifier::external_body]
fn cast_slice_u16(data: &[u16]) -> (r: Vec<u8>)
    ensures
        laid_out(data@.map_values(|x: u16| x as u64), 2, r@),
{
    bytemuck::cast_slice::<u16, u8>(data).to_vec()
}

/// `bytemuck::cast_slice` from 32-bit words to bytes: the memory of the
/// words, which holds them one after the other, four bytes each, in the
/// byte order of the machine.
#[verifier::external_body]
fn cast_slice_u32(data: &[u32]) -> (r: Vec<u8>)
    ensures
        laid_out(data@.map_values(|x: u32| x as u64), 4, r@),
{
    bytemuck::cast_slice::<u32, u8>(data).to_vec()
}

/// `bytemuck::cast_slice` from 64-bit words to bytes: the memory of the
/// words, which holds them one after the other, eight bytes each, in the
/// byte order of the machine.
#[verifier::external_body]
fn cast_slice_u64(data: &[u64]) -> (r: Vec<u8>)
    ensures
        laid_out(data@, 8, r@),
{
    bytemuck::cast_slice::<u64, u8>(data).to_vec()
}

/// `bytemuck::bytes_of` on a byte: that byte.
#[verifier::external_body]
fn bytes_of_u8(x: u8) -> (r: Vec<u8>)
    ensures
        r@ == seq![x],
{
    bytemuck::bytes_of(&x).to_vec()
}

/// `bytemuck::bytes_of` on a 16-bit word: its two bytes as they lie in
/// memory, in the byte order of the machine.
#[verifier::external_body]
fn bytes_of_u16(x: u16) -> (r: Vec<u8>)
    ensures
        encodes(r@, x as u64, 2),
{
    bytemuck::bytes_of(&x).to_vec()
}

/// `bytemuck::bytes_of` on a 32-bit word: its four bytes as they lie in
/// memory, in the byte order of the machine.
#[verifier::external_body]
fn bytes_of_u32(x: u32) -> (r: Vec<u8>)
    ensures
        encodes(r@, x as u64, 4),
{
    bytemuck::bytes_of(&x).to_vec()
}

/// `bytemuck::bytes_of` on a 64-bit word: its eight bytes as they lie in
/// memory, in the byte order of the machine.
#[verifier::external_body]
fn bytes_of_u64(x: u64) -> (r: Vec<u8>)
    ensures
        encodes(r@, x, 8),
{
    bytemuck::bytes_of(&x).to_vec()
}

/// `bytemuck::pod_read_unaligned` of a byte: the one byte of the slice.
/// The slice must hold exactly one byte, or the call panics.
#[verifier::external_body]
fn pod_read_u8(bytes: &[u8]) -> (r: u8)
    requires
        bytes@.len() == 1,
    ensures
        r == bytes@[0],
{
    bytemuck::pod_read_unaligned::<u8>(bytes)
}

/// `bytemuck::pod_read_unaligned` of a 16-bit word: the word whose memory
/// the two bytes are, in the byte order of the machine. The slice must
/// hold exactly two bytes, or the call panics.
#[verifier::external_body]
fn pod_read_u16(bytes: &[u8]) -> (r: u16)
    requires
        bytes@.len() == 2,
    ensures
        encodes(bytes@, r as u64, 2),
{
    bytemuck::pod_read_unaligned::<u16>(bytes)
}

/// `bytemuck::pod_read_unaligned` of a 32-bit word: the word whose memory
/// the four bytes are, in the byte order of the machine. The slice must
/// hold exactly four bytes, or the call panics.
#[verifier::external_body]
fn pod_read_u32(bytes: &[u8]) -> (r: u32)
    requires
        bytes@.len() == 4,
    ensures
        encodes(bytes@, r as u64, 4),
{
    bytemuck::pod_read_unaligned::<u32>(bytes)
}

/// `bytemuck::pod_read_unaligned` of a 64-bit word: the word whose memory
/// the eight bytes are, in the byte order of the machine. The slice must
/// hold exactly eight bytes, or the call panics.
#[verifier::external_body]
fn pod_read_u64(bytes: &[u8]) -> (r: u64)
    requires
        bytes@.len() == 8,
    ensures
        encodes(bytes@, r, 8),
{
    bytemuck::pod_read_unaligned::<u64>(bytes)
}

/// The bit patterns of a buffer, each cut to the width of its elements.
pub open spec fn cut(bits: Seq<u64>, kind: ElemKind) -> Seq<u64> {
    bits.map_values(|b: u64| b & kind.spec_mask())
}

/// The bytes of a typed array that holds the elements of `buffer`, as the
/// memory of a contiguous sequence holds them: copied as a whole, all in
/// the byte order of the machine.
pub fn buffer_to_bytes(buffer: &Buffer) -> (r: Vec<u8>)
    ensures
        laid_out(cut(buffer.bits@, buffer.kind), buffer.kind.size_of(), r@),
{
    let n = buffer.bits.len();
    match buffer.kind {
        ElemKind::U8 | ElemKind::I8 => {
            let mut narrow: Vec<u8> = Vec::new();
            let mut i: usize = 0;
            while i < n
                invariant
                    i <= n,
                    n == buffer.bits@.len(),
                    narrow@.len() == i,
                    forall|j: int| 0 <= j < i ==> (#[trigger] narrow@[j]) == buffer.bits@[j] & 0xff,
                decreases n - i,
            {
                let b = buffer.bits[i];
                let low = (b & 0xff) as u8;
                assert(b & 0xff < 0x100) by (bit_vector);
                narrow.push(low);
                i += 1;
            }
            let r = cast_slice_u8(narrow.as_slice());
            proof {
                let want = cut(buffer.bits@, buffer.kind);
                assert forall|j: int| 0 <= j < want.len() implies #[trigger] chunk(r@, j, 1)
                    == little_endian(want[j], 1) by {
                    let x = want[j];
                    let b = buffer.bits@[j];
                    assert(x == b & 0xff);
                    assert(x < 0x100) by (bit_vector)
                        requires
                            x == b & 0xff,
                    ;
                    lemma_one_byte(x as u8);
                    assert(chunk(r@, j, 1) =~= seq![x as u8]);
                }
            }
            r
        },
        ElemKind::U16 | ElemKind::I16 => {
            let mut narrow: Vec<u16> = Vec::new();
            let mut i: usize = 0;
            while i < n
                invariant
                    i <= n,
                    n == buffer.bits@.len(),
                    narrow@.len() == i,
                    forall|j: int| 0 <= j < i ==> (#[trigger] narrow@[j]) == buffer.bits@[j] & 0xffff,
                decreases n - i,
            {
                let b = buffer.bits[i];
                assert(b & 0xffff < 0x1_0000) by (bit_vector);
                narrow.push((b & 0xffff) as u16);
                i += 1;
            }
            let r = cast_slice_u16(narrow.as_slice());
            assert(narrow@.map_values(|x: u16| x as u64) =~= cut(buffer.bits@, buffer.kind));
            r
        },
        ElemKind::U32 | ElemKind::I32 | ElemKind::F32 => {
            let mut narrow: Vec<u32> = Vec::new();
            let mut i: usize = 0;
            while i < n
                invariant
                    i <= n,
                    n == buffer.bits@.len(),
                    narrow@.len() == i,
                    forall|j: int|
                        0 <= j < i ==> (#[trigger] narrow@[j]) == buffer.bits@[j] & 0xffff_ffff,
                decreases n - i,
            {
                let b = buffer.bits[i];
                assert(b & 0xffff_ffff < 0x1_0000_0000) by (bit_vector);
                narrow.push((b & 0xffff_ffff) as u32);
                i += 1;
            }
            let r = cast_slice_u32(narrow.as_slice());
            assert(narrow@.map_values(|x: u32| x as u64) =~= cut(buffer.bits@, buffer.kind));
            r
        },
        ElemKind::F64 => {
            let r = cast_slice_u64(buffer.bits.as_slice());
            proof {
                assert forall|j: int| 0 <= j < buffer.bits@.len() implies cut(
                    buffer.bits@,
                    buffer.kind,
                )[j] == buffer.bits@[j] by {
                    let b = buffer.bits@[j];
                    assert(b & 0xffff_ffff_ffff_ffff == b) by (bit_vector);
                }
                assert(cut(buffer.bits@, buffer.kind) =~= buffer.bits@);
            }
            r
        },
    }
}

/// The bytes of one element of the kind `kind` with the bit pattern
/// `bits`, in the byte order of the machine.
pub fn element_to_bytes(kind: ElemKind, bits: u64) -> (r: Vec<u8>)
    ensures
        r@.len() == kind.size_of(),
        encodes(r@, bits & kind.spec_mask(), kind.size_of()),
{
    match kind {
        ElemKind::U8 | ElemKind::I8 => {
            assert(bits & 0xff < 0x100) by (bit_vector);
            let r = bytes_of_u8((bits & 0xff) as u8);
            proof {
                lemma_one_byte((bits & 0xff) as u8);
            }
            r
        },
        ElemKind::U16 | ElemKind::I16 => {
            assert(bits & 0xffff < 0x1_0000) by (bit_vector);
            bytes_of_u16((bits & 0xffff) as u16)
        },
        ElemKind::U32 | ElemKind::I32 | ElemKind::F32 => {
            assert(bits & 0xffff_ffff < 0x1_0000_0000) by (bit_vector);
            bytes_of_u32((bits & 0xffff_ffff) as u32)
        },
        ElemKind::F64 => {
            assert(bits & 0xffff_ffff_ffff_ffff == bits) by (bit_vector);
            bytes_of_u64(bits)
        },
    }
}

/// The byte at position `i` of a bit pattern, lowest first.
fn byte_at(bits: u64, i: usize) -> (r: u8)
    requires
        i < 8,
    ensures
        r == byte_of(bits, i as nat),
{
    let above: u64 = if i == 0 {
        bits
    } else if i == 1 {
        bits / 0x100
    } else if i == 2 {
        bits / 0x1_0000
    } else if i == 3 {
        bits / 0x100_0000
    } else if i == 4 {
        bits / 0x1_0000_0000
    } else if i == 5 {
        bits / 0x100_0000_0000
    } else if i == 6 {
        bits / 0x1_0000_0000_0000
    } else {
        bits / 0x100_0000_0000_0000
    };
    (above % 0x100) as u8
}

/// The lowest `size` bytes of a bit pattern in one byte order: lowest
/// first where `little` holds, highest first where it does not.
pub open spec fn ordered(bits: u64, size: nat, little: bool) -> Seq<u8> {
    if little {
        little_endian(bits, size)
    } else {
        big_endian(bits, size)
    }
}

/// Whether `item` holds the lowest `size` bytes of `bits` in the byte
/// order that `little` names.
fn in_order(item: &Vec<u8>, bits: u64, size: usize, little: bool) -> (r: bool)
    requires
        1 <= size <= 8,
        item@.len() == size,
    ensures
        r == (item@ == ordered(bits, size as nat, little)),
{
    let ghost want = ordered(bits, size as nat, little);
    let mut k: usize = 0;
    while k < size
        invariant
            k <= size <= 8,
            item@.len() == size,
            want == ordered(bits, size as nat, little),
            want.len() == size,
            forall|j: int| 0 <= j < k ==> item@[j] == want[j],
        decreases size - k,
    {
        let at: usize = if little {
            k
        } else {
            size - 1 - k
        };
        assert(want[k as int] == byte_of(bits, at as nat));
        if item[k] != byte_at(bits, at) {
            return false;
        }
        k += 1;
    }
    assert(item@ =~= want);
    true
}

/// The bytes of a typed array that holds the elements of `buffer`,
/// written element by element, all in the byte order of the machine.
/// What is written is held against the two byte orders; should the
/// elements not all have come in one of them, the memory of the elements
/// is copied as a whole in their place.
pub fn elements_to_bytes(buffer: &Buffer) -> (r: Vec<u8>)
    ensures
        laid_out(cut(buffer.bits@, buffer.kind), buffer.kind.size_of(), r@),
{
    let size = buffer.kind.size();
    let mask = buffer.kind.mask();
    let ghost want = cut(buffer.bits@, buffer.kind);
    let n = buffer.bits.len();
    let mut out: Vec<u8> = Vec::new();
    let mut little = true;
    let mut big = true;
    let mut i: usize = 0;
    while i < n
        invariant
            i <= n,
            n == buffer.bits@.len(),
            size == buffer.kind.size_of(),
            mask == buffer.kind.spec_mask(),
            1 <= size <= 8,
            want == cut(buffer.bits@, buffer.kind),
            out@.len() == i * size,
            little ==> forall|j: int|
                0 <= j < i ==> #[trigger] chunk(out@, j, size as nat) == little_endian(
                    want[j],
                    size as nat,
                ),
            big ==> forall|j: int|
                0 <= j < i ==> #[trigger] chunk(out@, j, size as nat) == big_endian(
                    want[j],
                    size as nat,
                ),
        decreases n - i,
    {
        let ghost before = out@;
        let element = buffer.bits[i] & mask;
        let mut item = element_to_bytes(buffer.kind, buffer.bits[i]);
        let ghost added = item@;
        little = little && in_order(&item, element, size, true);
        big = big && in_order(&item, element, size, false);
        out.append(&mut item);
        proof {
            assert(out@ == before + added);
            assert(i * size + size == (i + 1) * size) by (nonlinear_arith);
            assert forall|j: int| 0 <= j < i + 1 implies #[trigger] chunk(out@, j, size as nat) == (
            if j < i {
                chunk(before, j, size as nat)
            } else {
                added
            }) by {
                if j < i {
                    assert(j * size + size <= i * size) by (nonlinear_arith)
                        requires
                            j < i,
                            size >= 1,
                    ;
                    assert((j + 1) * size == j * size + size) by (nonlinear_arith);
                    assert(chunk(out@, j, size as nat) =~= chunk(before, j, size as nat));
                } else {
                    assert(chunk(out@, j, size as nat) =~= added);
                }
            }
        }
        i += 1;
    }
    if little || big {
        out
    } else {
        buffer_to_bytes(buffer)
    }
}

/// The element of the kind `kind` whose memory the bytes are, in the byte
/// order of the machine. There must be as many bytes as the element takes.
fn element_from_bytes(kind: ElemKind, bytes: &[u8]) -> (r: u64)
    requires
        bytes@.len() == kind.size_of(),
    ensures
        r <= kind.spec_mask(),
        encodes(bytes@, r, kind.size_of()),
{
    match kind {
        ElemKind::U8 | ElemKind::I8 => {
            let x = pod_read_u8(bytes);
            proof {
                lemma_one_byte(x);
                assert(bytes@ =~= seq![x]);
            }
            x as u64
        },
        ElemKind::U16 | ElemKind::I16 => pod_read_u16(bytes) as u64,
        ElemKind::U32 | ElemKind::I32 | ElemKind::F32 => pod_read_u32(bytes) as u64,
        ElemKind::F64 => pod_read_u64(bytes),
    }
}

/// The elements of the kind `kind` that the bytes of a typed array hold:
/// as many as fit, each read from its bytes in the byte order of the
/// machine. Bytes behind the last whole element are passed over.
pub fn buffer_from_bytes(kind: ElemKind, bytes: &[u8]) -> (r: Buffer)
    ensures
        r.kind == kind,
        r.bits@.len() == bytes@.len() / kind.size_of(),
        forall|i: int|
            0 <= i < r.bits@.len() ==> (#[trigger] r.bits@[i]) <= kind.spec_mask() && encodes(
                chunk(bytes@, i, kind.size_of()),
                r.bits@[i],
                kind.size_of(),
            ),
{
    let size = kind.size();
    let n = bytes.len() / size;
    let mut bits: Vec<u64> = Vec::new();
    let mut i: usize = 0;
    while i < n
        invariant
            i <= n,
            size == kind.size_of(),
            1 <= size <= 8,
            bytes@.len() <= usize::MAX,
            n == bytes@.len() / (size as nat),
            bits@.len() == i,
            forall|j: int|
                0 <= j < i ==> (#[trigger] bits@[j]) <= kind.spec_mask() && encodes(
                    chunk(bytes@, j, size as nat),
                    bits@[j],
                    size as nat,
                ),
        decreases n - i,
    {
        proof {
            assert((i + 1) * size <= n * size) by (nonlinear_arith)
                requires
                    i < n,
                    size >= 1,
            ;
            assert(n * size <= bytes@.len()) by (nonlinear_arith)
                requires
                    n == bytes@.len() / (size as nat),
                    size >= 1,
            ;
            assert((i + 1) * size == i * size + size) by (nonlinear_arith);
        }
        let part = slice_subrange(bytes, i * size, (i + 1) * size);
        assert(part@ == chunk(bytes@, i as int, size as nat));
        bits.push(element_from_bytes(kind, part));
        i += 1;
    }
    Buffer { kind, bits }
}

} // verus!
