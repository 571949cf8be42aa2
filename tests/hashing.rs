use course_passing::hashing::{gen_dna, hash_of_course, mix_dna};
use course_passing::types::{Course, CourseYear, ExecContext};

fn ctx(extrinsic_index: Option<u32>, block_number: u64) -> ExecContext {
    ExecContext { random_seed: [0u8; 32], extrinsic_index, block_number }
}

#[test]
fn course_id_is_blake2_256_of_encoding() {
    let c = Course { dna: [1u8; 16], price: None, course_year: CourseYear::First, credits: 0, owner: 7 };
    let expected: [u8; 32] = [
        134, 78, 188, 93, 246, 97, 124, 142, 196, 251, 55, 184, 114, 4, 103, 119, 221, 160, 191,
        216, 119, 182, 172, 154, 180, 152, 72, 130, 27, 178, 202, 251,
    ];
    assert_eq!(hash_of_course(&c), expected);
}

#[test]
fn course_id_encodes_price_year_and_credits() {
    let c = Course {
        dna: [1u8; 16],
        price: Some(100),
        course_year: CourseYear::Third,
        credits: 5,
        owner: 7,
    };
    let expected: [u8; 32] = [
        92, 2, 216, 201, 145, 150, 9, 76, 156, 6, 69, 255, 81, 236, 3, 32, 182, 156, 13, 199, 171,
        120, 222, 104, 44, 205, 114, 115, 240, 7, 53, 219,
    ];
    assert_eq!(hash_of_course(&c), expected);
}

#[test]
fn course_id_is_deterministic_and_depends_on_owner() {
    let a = Course { dna: [9u8; 16], price: None, course_year: CourseYear::Second, credits: 1, owner: 1 };
    let b = Course { owner: 2, ..a };
    assert_eq!(hash_of_course(&a), hash_of_course(&a));
    assert_ne!(hash_of_course(&a), hash_of_course(&b));
}

#[test]
fn gen_dna_is_blake2_128_of_context() {
    let expected: [u8; 16] = [46, 50, 143, 150, 192, 253, 168, 21, 217, 247, 245, 42, 38, 173, 145, 73];
    assert_eq!(gen_dna(&ctx(Some(1), 5)), expected);
}

#[test]
fn gen_dna_without_extrinsic_index_uses_zero() {
    let expected: [u8; 16] = [247, 252, 251, 216, 32, 98, 152, 117, 166, 23, 241, 172, 221, 200, 226, 59];
    assert_eq!(gen_dna(&ctx(None, 5)), expected);
    assert_eq!(gen_dna(&ctx(None, 5)), gen_dna(&ctx(Some(0), 5)));
}

#[test]
fn gen_dna_same_step_same_result_other_step_other_result() {
    assert_eq!(gen_dna(&ctx(Some(1), 5)), gen_dna(&ctx(Some(1), 5)));
    assert_ne!(gen_dna(&ctx(Some(1), 5)), gen_dna(&ctx(Some(2), 5)));
    assert_ne!(gen_dna(&ctx(Some(1), 5)), gen_dna(&ctx(Some(1), 6)));
}

#[test]
fn mix_dna_takes_bits_by_mask() {
    let mut mask = [0u8; 16];
    mask[0] = 0xF0;
    mask[1] = 0xFF;
    mask[2] = 0x0F;
    let a = [0xAAu8; 16];
    let b = [0x55u8; 16];
    let child = mix_dna(&mask, &a, &b);
    assert_eq!(child[0], 0xA5);
    assert_eq!(child[1], 0xAA);
    assert_eq!(child[2], 0x5A);
    for i in 3..16 {
        assert_eq!(child[i], 0x55);
    }
    for i in 0..16 {
        assert_eq!(child[i], (mask[i] & a[i]) | (!mask[i] & b[i]));
    }
}

#[test]
fn mix_dna_is_not_commutative_for_different_parents() {
    let mask = [0x3Cu8; 16];
    let a = [0x0Fu8; 16];
    let b = [0xF0u8; 16];
    assert_ne!(mix_dna(&mask, &a, &b), mix_dna(&mask, &b, &a));
    assert_eq!(mix_dna(&mask, &a, &a), mix_dna(&mask, &a, &a));
    assert_eq!(mix_dna(&mask, &a, &a), a);
}
