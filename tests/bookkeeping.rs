use icicle_virgo::bookkeeping::{produce_case_1, sum_all_case_1, sum_all_case_2};
use icicle_virgo::buffer::{Buffer, Residency};
use icicle_virgo::error::VirgoError;
use icicle_virgo::field::{FieldImpl, PrimeField};
use icicle_virgo::virgo::{bk_produce_case_1, bk_sum_all_case_1, bk_sum_all_case_2};

type F7 = PrimeField<7>;
type F61 = PrimeField<2305843009213693951>;

fn table7(values: &[u64]) -> Buffer<F7> {
    Buffer::from_vec(values.iter().map(|&x| F7::new(x)).collect(), Residency::Host)
}

fn table61(values: &[u64]) -> Buffer<F61> {
    Buffer::from_vec(values.iter().map(|&x| F61::new(x)).collect(), Residency::Host)
}

fn values<F: FieldImpl, G: Fn(&F) -> u64>(b: &Buffer<F>, value: G) -> Vec<u64> {
    b.as_slice().iter().map(value).collect()
}

fn mod61(x: u128) -> u64 {
    (x % 2305843009213693951u128) as u64
}

#[test]
fn toy_field_inner_product() {
    let t1 = table7(&[1, 2, 3, 4]);
    let t2 = table7(&[5, 6, 0, 1]);
    let mut out = table7(&[6]);
    assert_eq!(bk_sum_all_case_1(&t1, &t2, &mut out, 4), Ok(()));
    assert_eq!(values(&out, F7::value), vec![0]);
}

#[test]
fn toy_field_self_pairing() {
    let t1 = table7(&[1, 2, 3, 4]);
    let mut out = table7(&[6]);
    assert_eq!(bk_sum_all_case_2(&t1, &mut out, 4), Ok(()));
    assert_eq!(values(&out, F7::value), vec![0]);
}

#[test]
fn toy_field_fold() {
    let t1 = table7(&[1, 2, 3, 4]);
    let t2 = table7(&[5, 6, 0, 1]);
    let mut out = table7(&[0, 0]);
    assert_eq!(bk_produce_case_1(&t1, &t2, &mut out, 4), Ok(()));
    assert_eq!(values(&out, F7::value), vec![2, 3]);
}

#[test]
fn inner_product_matches_reference() {
    let a: Vec<u64> = vec![2305843009213693950, 17, 1 << 60, 99, 123456789012345, 5];
    let b: Vec<u64> = vec![2305843009213693950, 3, 1 << 59, 0, 987654321098765, 7];
    let mut expected: u128 = 0;
    for i in 0..a.len() {
        expected = (expected + (a[i] as u128) * (b[i] as u128)) % 2305843009213693951u128;
    }
    let mut out = table61(&[0]);
    let r = sum_all_case_1(&table61(&a), &table61(&b), &mut out, 6);
    assert_eq!(r, Ok(()));
    assert_eq!(values(&out, F61::value), vec![mod61(expected)]);
}

#[test]
fn self_pairing_matches_reference() {
    let t: Vec<u64> = vec![2305843009213693950, 2305843009213693949, 1 << 61, 3, 8, 9];
    let mut expected: u128 = 0;
    for i in 0..3 {
        let x = (t[2 * i] % 2305843009213693951) as u128;
        let y = (t[2 * i + 1] % 2305843009213693951) as u128;
        expected = (expected + x * y) % 2305843009213693951u128;
    }
    let mut out = table61(&[0]);
    assert_eq!(sum_all_case_2(&table61(&t), &mut out, 6), Ok(()));
    assert_eq!(values(&out, F61::value), vec![mod61(expected)]);
}

#[test]
fn fold_matches_reference_and_halves() {
    let a: Vec<u64> = vec![2305843009213693950, 11, 1 << 60, 4, 0, 1 << 62];
    let b: Vec<u64> = vec![2305843009213693950, 2305843009213693950, 13, 1 << 55, 7, 8];
    let mut out = table61(&[0, 0, 0]);
    assert_eq!(produce_case_1(&table61(&a), &table61(&b), &mut out, 6), Ok(()));
    let mut expected = Vec::new();
    for i in 0..3 {
        let x1 = (a[2 * i] % 2305843009213693951) as u128;
        let x2 = (a[2 * i + 1] % 2305843009213693951) as u128;
        let y1 = (b[2 * i] % 2305843009213693951) as u128;
        let y2 = (b[2 * i + 1] % 2305843009213693951) as u128;
        expected.push(mod61(mod61(x1 * y2) as u128 + mod61(x2 * y1) as u128));
    }
    assert_eq!(out.len(), 3);
    assert_eq!(values(&out, F61::value), expected);
}

#[test]
fn fold_of_two_leaves_one_element() {
    let t1 = table7(&[3, 5]);
    let t2 = table7(&[2, 4]);
    let mut out = table7(&[0]);
    assert_eq!(bk_produce_case_1(&t1, &t2, &mut out, 2), Ok(()));
    // 3 * 4 + 5 * 2 = 22 = 1 mod 7
    assert_eq!(values(&out, F7::value), vec![1]);
}

#[test]
fn summation_order_does_not_matter() {
    let a = [1u64, 2, 3, 4, 5, 6, 0, 6];
    let b = [6u64, 5, 4, 3, 2, 1, 3, 3];
    let perm = [5usize, 2, 7, 0, 1, 6, 4, 3];
    let pa: Vec<u64> = perm.iter().map(|&i| a[i]).collect();
    let pb: Vec<u64> = perm.iter().map(|&i| b[i]).collect();
    let mut out1 = table7(&[0]);
    let mut out2 = table7(&[0]);
    assert_eq!(bk_sum_all_case_1(&table7(&a), &table7(&b), &mut out1, 8), Ok(()));
    assert_eq!(bk_sum_all_case_1(&table7(&pa), &table7(&pb), &mut out2, 8), Ok(()));
    assert_eq!(values(&out1, F7::value), values(&out2, F7::value));

    let pairs = [(1u64, 2u64), (3, 4), (5, 6), (6, 6)];
    let flat: Vec<u64> = pairs.iter().flat_map(|&(x, y)| [x, y]).collect();
    let swapped: Vec<u64> = pairs.iter().rev().flat_map(|&(x, y)| [x, y]).collect();
    let mut out3 = table7(&[0]);
    let mut out4 = table7(&[0]);
    assert_eq!(bk_sum_all_case_2(&table7(&flat), &mut out3, 8), Ok(()));
    assert_eq!(bk_sum_all_case_2(&table7(&swapped), &mut out4, 8), Ok(()));
    assert_eq!(values(&out3, F7::value), values(&out4, F7::value));
    // 2 + 12 + 30 + 36 = 80 = 3 mod 7
    assert_eq!(values(&out3, F7::value), vec![3]);
}

#[test]
fn inner_product_rejects_bad_lengths() {
    let t4 = table7(&[1, 2, 3, 4]);
    let t3 = table7(&[1, 2, 3]);
    let empty = table7(&[]);
    let mut out = table7(&[5]);
    assert_eq!(bk_sum_all_case_1(&t4, &t3, &mut out, 4), Err(VirgoError::LengthMismatch));
    assert_eq!(bk_sum_all_case_1(&t4, &t4, &mut out, 3), Err(VirgoError::LengthMismatch));
    assert_eq!(bk_sum_all_case_1(&empty, &empty, &mut out, 0), Err(VirgoError::LengthMismatch));
    let mut none = table7(&[]);
    assert_eq!(bk_sum_all_case_1(&t4, &t4, &mut none, 4), Err(VirgoError::LengthMismatch));
    assert_eq!(values(&out, F7::value), vec![5]);
}

#[test]
fn sums_write_only_the_first_element_of_a_wider_output() {
    let t4 = table7(&[1, 2, 3, 4]);
    let mut wide = table7(&[5, 5, 6]);
    assert_eq!(bk_sum_all_case_1(&t4, &t4, &mut wide, 4), Ok(()));
    // 1 + 4 + 9 + 16 = 30 = 2 mod 7
    assert_eq!(values(&wide, F7::value), vec![2, 5, 6]);
    let mut wide2 = table7(&[5, 5]);
    assert_eq!(bk_sum_all_case_2(&t4, &mut wide2, 4), Ok(()));
    // 1 * 2 + 3 * 4 = 14 = 0 mod 7
    assert_eq!(values(&wide2, F7::value), vec![0, 5]);
}

#[test]
fn self_pairing_rejects_bad_lengths() {
    let t3 = table7(&[1, 2, 3]);
    let t4 = table7(&[1, 2, 3, 4]);
    let empty = table7(&[]);
    let mut out = table7(&[5]);
    assert_eq!(bk_sum_all_case_2(&t3, &mut out, 3), Err(VirgoError::LengthMismatch));
    assert_eq!(bk_sum_all_case_2(&t4, &mut out, 6), Err(VirgoError::LengthMismatch));
    assert_eq!(bk_sum_all_case_2(&empty, &mut out, 0), Err(VirgoError::LengthMismatch));
    let mut none = table7(&[]);
    assert_eq!(bk_sum_all_case_2(&t4, &mut none, 4), Err(VirgoError::LengthMismatch));
    assert_eq!(values(&out, F7::value), vec![5]);
}

#[test]
fn fold_rejects_bad_lengths() {
    let t4 = table7(&[1, 2, 3, 4]);
    let t2 = table7(&[1, 2]);
    let t3 = table7(&[1, 2, 3]);
    let mut out = table7(&[5, 5]);
    assert_eq!(bk_produce_case_1(&t4, &t2, &mut out, 4), Err(VirgoError::LengthMismatch));
    assert_eq!(bk_produce_case_1(&t3, &t3, &mut out, 3), Err(VirgoError::LengthMismatch));
    let mut short = table7(&[5]);
    assert_eq!(bk_produce_case_1(&t4, &t4, &mut short, 4), Err(VirgoError::LengthMismatch));
    let empty = table7(&[]);
    let mut none = table7(&[]);
    assert_eq!(bk_produce_case_1(&empty, &empty, &mut none, 0), Err(VirgoError::LengthMismatch));
    assert_eq!(values(&out, F7::value), vec![5, 5]);
    assert_eq!(values(&short, F7::value), vec![5]);
}

#[test]
fn chained_folding_reaches_one_element() {
    let mut table = table7(&[1, 2, 3, 4, 5, 6, 0, 1]);
    let mut n: u32 = 8;
    let mut rounds = 0;
    while n > 1 {
        let mut next = Buffer::filled(F7::zero(), (n / 2) as usize, Residency::Host);
        assert_eq!(bk_produce_case_1(&table, &table, &mut next, n), Ok(()));
        table = next;
        n /= 2;
        rounds += 1;
    }
    assert_eq!(rounds, 3);
    assert_eq!(table.len(), 1);
    // [1,2,3,4,5,6,0,1] -> [4,24,60,0] = [4,3,4,0] -> [24,0] = [3,0] -> [0]
    assert_eq!(values(&table, F7::value), vec![0]);
}

#[test]
fn device_residency_is_kept_and_result_is_the_same() {
    let t1 = Buffer::from_vec(vec![F7::new(1), F7::new(2)], Residency::Device);
    let t2 = Buffer::from_vec(vec![F7::new(3), F7::new(4)], Residency::Device);
    let mut out = Buffer::filled(F7::zero(), 1, Residency::Device);
    assert_eq!(bk_sum_all_case_1(&t1, &t2, &mut out, 2), Ok(()));
    assert!(out.is_on_device());
    assert_eq!(out.residency(), Residency::Device);
    assert_eq!(values(&out, F7::value), vec![4]);
}
