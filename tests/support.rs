use icicle_virgo::buffer::{Buffer, Residency};
use icicle_virgo::error::VirgoError;
use icicle_virgo::field::{FieldImpl, PrimeField};

#[test]
fn new_reduces_modulo_p() {
    assert_eq!(PrimeField::<7>::new(23).value(), 2);
    assert_eq!(PrimeField::<7>::new(7).value(), 0);
    assert_eq!(PrimeField::<7>::new(u64::MAX).value(), u64::MAX % 7);
}

#[test]
fn add_and_mul_wrap_around_the_modulus() {
    let a = PrimeField::<7>::new(5);
    let b = PrimeField::<7>::new(4);
    assert_eq!(a.add(&b).value(), 2);
    assert_eq!(a.mul(&b).value(), 6);
    assert_eq!(PrimeField::<7>::zero().value(), 0);
    let big = PrimeField::<18446744073709551557>::new(18446744073709551556);
    // (-1) * (-1) = 1 and (-1) + (-1) = -2
    assert_eq!(big.mul(&big).value(), 1);
    assert_eq!(big.add(&big).value(), 18446744073709551555);
}

#[test]
fn degenerate_modulus_is_the_zero_ring() {
    let a = PrimeField::<1>::new(9);
    let b = PrimeField::<0>::new(9);
    assert_eq!(a.value(), 0);
    assert_eq!(b.add(&b).value(), 0);
    assert_eq!(b.mul(&b).value(), 0);
}

#[test]
fn buffer_read_and_write_check_bounds() {
    let mut b = Buffer::from_vec(vec![PrimeField::<7>::new(1), PrimeField::<7>::new(2)], Residency::Host);
    assert_eq!(b.len(), 2);
    assert_eq!(b.read(1).map(|x| x.value()), Ok(2));
    assert_eq!(b.read(2).map(|x| x.value()), Err(VirgoError::OutOfBounds));
    assert_eq!(b.write(0, PrimeField::<7>::new(6)), Ok(()));
    assert_eq!(b.write(2, PrimeField::<7>::new(6)), Err(VirgoError::OutOfBounds));
    let v: Vec<u64> = b.to_vec().iter().map(|x| x.value()).collect();
    assert_eq!(v, vec![6, 2]);
    assert!(!b.is_on_device());
}

#[test]
fn filled_buffer_has_requested_length() {
    let b = Buffer::filled(PrimeField::<7>::new(3), 5, Residency::Device);
    assert_eq!(b.len(), 5);
    assert!(b.as_slice().iter().all(|x| x.value() == 3));
    assert_eq!(b.residency(), Residency::Device);
}
