use grid_analysis::wide::Wide;

#[test]
fn shifting_multiplies_by_a_power_of_two() {
    assert_eq!(Wide::shifted(3, 1), Wide::shifted(6, 0));
    assert_eq!(Wide::shifted(1, 64), Wide::shifted(0x8000, 49));
    assert_eq!(Wide::shifted(5, 200), Wide::shifted(5 << 10, 190));
    assert_eq!(Wide::shifted(0, 254), Wide::zero());
    assert_ne!(Wide::shifted(1, 254), Wide::shifted(1, 253));
}

#[test]
fn sums_and_differences_undo_each_other() {
    for (a, b) in [
        (Wide::shifted(0xff_ffff, 254), Wide::shifted(0xff_ffff, 40)),
        (Wide::shifted(1, 64), Wide::shifted(1, 0)),
        (Wide::shifted(1, 128), Wide::shifted(0xff_ffff, 41)),
        (Wide::shifted(7, 3), Wide::zero()),
    ] {
        assert_eq!(a.plus(b).minus(b), a);
        assert_eq!(a.plus(b).minus(a), b);
        assert_eq!(a.plus(b), b.plus(a));
        assert_eq!(a.minus(a), Wide::zero());
    }
}

#[test]
fn borrows_run_through_every_limb() {
    let top = Wide::shifted(1, 254);
    let one = Wide::shifted(1, 0);
    let below_top = top.minus(one);
    assert!(below_top.below(top));
    assert_eq!(below_top.plus(one), top);
    // 2^254 - 1 is the sum of all lower powers of two
    let mut sum = Wide::zero();
    for shift in 0..254 {
        sum = sum.plus(Wide::shifted(1, shift));
    }
    assert_eq!(sum, below_top);
}

#[test]
fn products_are_repeated_sums() {
    let a = Wide::shifted(0xab_cdef, 190);
    assert_eq!(a.times(0), Wide::zero());
    assert_eq!(a.times(1), a);
    assert_eq!(a.times(3), a.plus(a).plus(a));
    assert_eq!(a.times(256), Wide::shifted(0xab_cdef, 198));
    assert_eq!(Wide::shifted(0xff_ffff, 254).times(255).times(2), Wide::shifted(0xff_ffff, 255 - 1).times(510));
    assert_eq!(Wide::shifted(1, 63).times(1 << 63), Wide::shifted(1, 126));
}

#[test]
fn order_goes_by_the_top_limb_first() {
    let small = Wide::shifted(0xff_ffff, 100);
    let large = Wide::shifted(1, 125);
    assert!(small.below(large));
    assert!(!large.below(small));
    assert!(!small.below(small));
    assert!(Wide::zero().below(Wide::shifted(1, 0)));
    assert!(Wide::shifted(1, 64).minus(Wide::shifted(1, 0)).below(Wide::shifted(1, 64)));
    assert!(Wide::shifted(2, 0).below(Wide::shifted(3, 0)));
}
