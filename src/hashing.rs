use vstd::prelude::*;
use crate::types::{Course, CourseId, CourseYear, Dna, ExecContext};

verus! {

/// The BLAKE2b hash of `data` with a 16-byte output.
pub uninterp spec fn blake2_128_of(data: Seq<u8>) -> [u8; 16];

/// The BLAKE2b hash of `data` with a 32-byte output.
pub uninterp spec fn blake2_256_of(data: Seq<u8>) -> [u8; 32];

/// Relies on sp_io::hashing::blake2_128: the BLAKE2b digest of the bytes with
/// a 16-byte output, a function of the bytes alone.
#[verifier::external_body]
fn blake2_128(data: &Vec<u8>) -> (r: [u8; 16])
    ensures
        r == blake2_128_of(data@),
{
    sp_io::hashing::blake2_128(data.as_slice())
}

/// Relies on sp_io::hashing::blake2_256: the BLAKE2b digest of the bytes with
/// a 32-byte output, a function of the bytes alone.
#[verifier::external_body]
fn blake2_256(data: &Vec<u8>) -> (r: [u8; 32])
    ensures
        r == blake2_256_of(data@),
{
    sp_io::hashing::blake2_256(data.as_slice())
}

/// The `n` low bytes of `x`, least significant first.
pub open spec fn le_bytes(x: nat, n: nat) -> Seq<u8>
    decreases n,
{
    if n == 0 {
        Seq::empty()
    } else {
        seq![(x % 256) as u8] + le_bytes(x / 256, (n - 1) as nat)
    }
}

/// The one-byte index of a year in its enum.
pub open spec fn year_index(y: CourseYear) -> u8 {
    match y {
        CourseYear::First => 0,
        CourseYear::Second => 1,
        CourseYear::Third => 2,
        CourseYear::Fourth => 3,
    }
}

/// The canonical (SCALE) encoding of an optional amount.
pub open spec fn encode_price(p: Option<u128>) -> Seq<u8> {
    match p {
        None => seq![0u8],
        Some(v) => seq![1u8] + le_bytes(v as nat, 16),
    }
}

/// The canonical (SCALE) encoding of a course, field by field.
pub open spec fn encode_course(c: Course) -> Seq<u8> {
    c.dna@ + encode_price(c.price) + seq![year_index(c.course_year)] + seq![c.credits]
        + le_bytes(c.owner as nat, 8)
}

/// The identifier of a course: the 256-bit hash of its encoding.
pub open spec fn course_id_of(c: Course) -> CourseId {
    blake2_256_of(encode_course(c))
}

/// The bytes that a fresh DNA is hashed from: the random seed, the extrinsic
/// index (zero where there is none) and the block number, encoded in turn.
pub open spec fn dna_payload(ctx: ExecContext) -> Seq<u8> {
    let idx: u32 = match ctx.extrinsic_index {
        Some(i) => i,
        None => 0,
    };
    ctx.random_seed@ + le_bytes(idx as nat, 4) + le_bytes(ctx.block_number as nat, 8)
}

/// The DNA generated in the step that `ctx` describes.
pub open spec fn gen_dna_of(ctx: ExecContext) -> Dna {
    blake2_128_of(dna_payload(ctx))
}

/// One byte of a child's DNA: the bits of `a` where `mask` has a one, the
/// bits of `b` where it has a zero.
pub open spec fn mix_byte(mask: u8, a: u8, b: u8) -> u8 {
    (mask & a) | (!mask & b)
}

/// The DNA that `mask` breeds from `a` and `b`, byte by byte.
pub open spec fn mixed(mask: Dna, a: Dna, b: Dna) -> Seq<u8> {
    Seq::new(16, |i: int| mix_byte(mask[i], a[i], b[i]))
}

fn push_le(out: &mut Vec<u8>, x: u128, n: usize)
    ensures
        final(out)@ == old(out)@ + le_bytes(x as nat, n as nat),
{
    let mut v: u128 = x;
    let mut k: usize = 0;
    while k < n
        invariant
            k <= n,
            out@ + le_bytes(v as nat, (n - k) as nat) == old(out)@ + le_bytes(x as nat, n as nat),
        decreases n - k,
    {
        let ghost before = out@;
        proof {
            assert(le_bytes(v as nat, (n - k) as nat) == seq![(v % 256) as u8] + le_bytes(
                (v / 256) as nat,
                (n - k - 1) as nat,
            ));
        }
        out.push((v % 256) as u8);
        v = v / 256;
        k = k + 1;
        proof {
            assert(before + (seq![(out@.last())] + le_bytes(v as nat, (n - k) as nat)) == out@
                + le_bytes(v as nat, (n - k) as nat));
        }
    }
    assert(le_bytes(v as nat, 0) == Seq::<u8>::empty());
    assert(out@ + Seq::<u8>::empty() == out@);
}

fn push_all<const N: usize>(out: &mut Vec<u8>, b: &[u8; N])
    ensures
        final(out)@ == old(out)@ + b@,
{
    let mut i: usize = 0;
    while i < N
        invariant
            i <= N,
            b@.len() == N,
            out@ == old(out)@ + b@.subrange(0, i as int),
        decreases N - i,
    {
        out.push(b[i]);
        i = i + 1;
        assert(out@ == old(out)@ + b@.subrange(0, i as int));
    }
    assert(b@.subrange(0, N as int) == b@);
}

/// The identifier of `c`.
pub fn hash_of_course(c: &Course) -> (r: CourseId)
    ensures
        r == course_id_of(*c),
{
    let mut data: Vec<u8> = Vec::new();
    push_all(&mut data, &c.dna);
    match c.price {
        None => {
            data.push(0u8);
        },
        Some(p) => {
            data.push(1u8);
            push_le(&mut data, p, 16);
        },
    }
    let y: u8 = match c.course_year {
        CourseYear::First => 0,
        CourseYear::Second => 1,
        CourseYear::Third => 2,
        CourseYear::Fourth => 3,
    };
    data.push(y);
    data.push(c.credits);
    push_le(&mut data, c.owner as u128, 8);
    assert(data@ == encode_course(*c));
    blake2_256(&data)
}

/// A fresh DNA for the step that `ctx` describes.
pub fn gen_dna(ctx: &ExecContext) -> (r: Dna)
    ensures
        r == gen_dna_of(*ctx),
{
    let mut data: Vec<u8> = Vec::new();
    push_all(&mut data, &ctx.random_seed);
    let idx: u32 = match ctx.extrinsic_index {
        Some(i) => i,
        None => 0,
    };
    push_le(&mut data, idx as u128, 4);
    push_le(&mut data, ctx.block_number as u128, 8);
    assert(data@ == dna_payload(*ctx));
    blake2_128(&data)
}

/// Breeds a child DNA from `a` and `b` under `mask`: each bit comes from `a`
/// where the mask bit is one and from `b` where it is zero.
pub fn mix_dna(mask: &Dna, a: &Dna, b: &Dna) -> (r: Dna)
    ensures
        r@ == mixed(*mask, *a, *b),
{
    let mut out: Dna = *mask;
    let mut i: usize = 0;
    while i < 16
        invariant
            i <= 16,
            forall|j: int| 0 <= j < i ==> out[j] == mix_byte(mask[j], a[j], b[j]),
            forall|j: int| i <= j < 16 ==> out[j] == mask[j],
        decreases 16 - i,
    {
        let m: u8 = out[i];
        out[i] = (m & a[i]) | (!m & b[i]);
        i = i + 1;
    }
    assert(out@ =~= mixed(*mask, *a, *b));
    out
}

/// Breeding under one mask is symmetric in the parents exactly when the
/// parents are equal: `mix(mask, a, b) == mix(mask, b, a)` iff `a == b`.
pub proof fn lemma_mix_symmetric_iff_equal(mask: Dna, a: Dna, b: Dna)
    ensures
        (mixed(mask, a, b) == mixed(mask, b, a)) <==> (a == b),
{
    assert forall|x: u8, y: u8, m: u8|
        #[trigger] mix_byte(m, x, y) == mix_byte(m, y, x) <==> x == y by {
        assert(((m & x) | (!m & y)) == ((m & y) | (!m & x)) <==> x == y) by (bit_vector);
    }
    if mixed(mask, a, b) == mixed(mask, b, a) {
        assert forall|i: int| 0 <= i < 16 implies a[i] == b[i] by {
            assert(mixed(mask, a, b)[i] == mixed(mask, b, a)[i]);
        }
        assert(a =~= b);
    }
    if a == b {
        assert(mixed(mask, a, b) =~= mixed(mask, b, a));
    }
}

} // verus!
