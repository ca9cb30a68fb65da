//! Byte-reduction tests: the verified reductions against plain reference
//! loops, over many random slices of varying tail lengths.

use rand::Rng;

use vchordrq::reduce::{
    reduce_sum_of_x_as_u16, reduce_sum_of_x_as_u32, reduce_sum_of_x_as_u32_y_as_u32,
};

fn reference_dot(lhs: &[u8], rhs: &[u8]) -> u32 {
    let mut result = 0u32;
    for i in 0..lhs.len() {
        result += (lhs[i] as u32) * (rhs[i] as u32);
    }
    result
}

fn reference_sum_u16(this: &[u8]) -> u16 {
    let mut sum = 0u16;
    for &x in this {
        sum += x as u16;
    }
    sum
}

fn reference_sum_u32(this: &[u8]) -> u32 {
    let mut sum = 0u32;
    for &x in this {
        sum += x as u32;
    }
    sum
}

fn check_dot() {
    let mut rng = rand::rng();
    for _ in 0..256 {
        let n = 4016;
        let lhs = (0..n).map(|_| rng.random()).collect::<Vec<u8>>();
        let rhs = (0..n).map(|_| rng.random()).collect::<Vec<u8>>();
        for z in 3984..4016 {
            let lhs = &lhs[..z];
            let rhs = &rhs[..z];
            let specialized = reduce_sum_of_x_as_u32_y_as_u32(lhs, rhs);
            let fallback = reference_dot(lhs, rhs);
            assert!(
                specialized == fallback,
                "specialized = {specialized}, fallback = {fallback}."
            );
        }
    }
}

fn check_sum_u16() {
    let mut rng = rand::rng();
    for _ in 0..256 {
        let n = 4016;
        let this = (0..n).map(|_| rng.random_range(0..16)).collect::<Vec<u8>>();
        for z in 3984..4016 {
            let this = &this[..z];
            let specialized = reduce_sum_of_x_as_u16(this);
            let fallback = reference_sum_u16(this);
            assert_eq!(specialized, fallback);
        }
    }
}

fn check_sum_u32() {
    let mut rng = rand::rng();
    for _ in 0..256 {
        let n = 4016;
        let this = (0..n).map(|_| rng.random()).collect::<Vec<u8>>();
        for z in 3984..4016 {
            let this = &this[..z];
            let specialized = reduce_sum_of_x_as_u32(this);
            let fallback = reference_sum_u32(this);
            assert_eq!(specialized, fallback);
        }
    }
}

#[test]
fn reduce_sum_of_x_as_u32_y_as_u32_v4_test() {
    check_dot();
}

#[test]
fn reduce_sum_of_x_as_u32_y_as_u32_v3_test() {
    check_dot();
}

#[test]
fn reduce_sum_of_x_as_u32_y_as_u32_v2_test() {
    check_dot();
}

#[test]
fn reduce_sum_of_x_as_u32_y_as_u32_a2_test() {
    check_dot();
}

#[test]
fn reduce_sum_of_x_as_u16_v4_test() {
    check_sum_u16();
}

#[test]
fn reduce_sum_of_x_as_u16_v3_test() {
    check_sum_u16();
}

#[test]
fn reduce_sum_of_x_as_u16_v2_test() {
    check_sum_u16();
}

#[test]
fn reduce_sum_of_x_as_u16_a2_test() {
    check_sum_u16();
}

#[test]
fn reduce_sum_of_x_as_u32_v4_test() {
    check_sum_u32();
}

#[test]
fn reduce_sum_of_x_as_u32_v3_test() {
    check_sum_u32();
}

#[test]
fn reduce_sum_of_x_as_u32_v2_test() {
    check_sum_u32();
}

#[test]
fn reduce_sum_of_x_as_u32_a2_test() {
    check_sum_u32();
}
