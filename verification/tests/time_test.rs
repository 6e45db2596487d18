use fluxcut::time::{gcd, TimeRational};

fn secs(t: TimeRational) -> f64 {
    t.num as f64 / t.den as f64
}

fn from_secs(seconds: f64, timebase: u32) -> TimeRational {
    TimeRational::new((seconds * timebase as f64).round() as i64, timebase)
}

#[test]
fn test_time_rational_arithmetic() {
    let t1 = TimeRational::new(1, 2);
    let t2 = TimeRational::new(1, 4);
    let sum = t1 + t2;
    assert_eq!(sum.num, 3);
    assert_eq!(sum.den, 4);
    assert_eq!(secs(sum), 0.75);

    let diff = t1 - t2;
    assert_eq!(diff.num, 1);
    assert_eq!(diff.den, 4);
    assert_eq!(secs(diff), 0.25);
}

#[test]
fn test_time_rational_from_seconds() {
    let t = from_secs(1.5, 1000);
    assert_eq!(secs(t), 1.5);
    assert_eq!((t.num, t.den), (3, 2));
}

#[test]
fn test_time_rational_exact_ordering_and_equality() {
    let t_2s = TimeRational { num: 2, den: 1 };
    let t_1_5s = TimeRational { num: 3, den: 2 };
    assert!(t_2s > t_1_5s);
    assert!(t_1_5s < t_2s);

    let t_half_a = TimeRational { num: 1, den: 2 };
    let t_half_b = TimeRational { num: 2, den: 4 };
    assert_eq!(t_half_a, t_half_b);
    assert_eq!(t_half_a.cmp(&t_half_b), std::cmp::Ordering::Equal);
}

#[test]
fn new_reduces_to_lowest_terms() {
    let t = TimeRational::new(1500, 1000);
    assert_eq!((t.num, t.den), (3, 2));
    let z = TimeRational::new(0, 1000);
    assert_eq!((z.num, z.den), (0, 1));
    let n = TimeRational::new(-4, 6);
    assert_eq!((n.num, n.den), (-2, 3));
    let p = TimeRational::new(7, 3);
    assert_eq!((p.num, p.den), (7, 3));
}

#[test]
fn reduce_in_place_keeps_value() {
    let mut t = TimeRational { num: 250, den: 1000 };
    t.reduce();
    assert_eq!((t.num, t.den), (1, 4));
    let mut z = TimeRational { num: 0, den: 7 };
    z.reduce();
    assert_eq!((z.num, z.den), (0, 1));
}

#[test]
fn reducing_twice_changes_nothing() {
    let mut t = TimeRational { num: -360, den: 48 };
    t.reduce();
    assert_eq!((t.num, t.den), (-15, 2));
    t.reduce();
    assert_eq!((t.num, t.den), (-15, 2));
}

#[test]
fn milliseconds_round_toward_zero() {
    assert_eq!(TimeRational { num: 4, den: 1 }.millis(), 4000);
    assert_eq!(TimeRational { num: -1, den: 3 }.millis(), -333);
    assert_eq!(TimeRational { num: 2, den: 3 }.millis(), 666);
}

#[test]
fn rescale_truncates_toward_zero() {
    let t = TimeRational { num: 1, den: 3 };
    let r = t.rescale(1000);
    assert_eq!((r.num, r.den), (333, 1000));
    let n = TimeRational { num: -1, den: 3 }.rescale(1000);
    assert_eq!((n.num, n.den), (-333, 1000));
    let same = TimeRational { num: 5, den: 10 }.rescale(10);
    assert_eq!((same.num, same.den), (5, 10));
}

#[test]
fn is_zero_and_abs() {
    assert!(TimeRational::zero().is_zero());
    assert!(!TimeRational { num: 1, den: 5 }.is_zero());
    let a = TimeRational { num: -7, den: 4 }.abs();
    assert_eq!((a.num, a.den), (7, 4));
}

#[test]
fn gcd_values() {
    assert_eq!(gcd(12, 18), 6);
    assert_eq!(gcd(7, 0), 7);
    assert_eq!(gcd(0, 9), 9);
    assert_eq!(gcd(17, 5), 1);
}

#[test]
fn sum_over_common_denominator() {
    let a = TimeRational { num: 1, den: 6 };
    let b = TimeRational { num: 1, den: 4 };
    let s = a + b;
    assert_eq!((s.num, s.den), (5, 12));
    let d = b - a;
    assert_eq!((d.num, d.den), (1, 12));
    assert_eq!(a.plus(b), s);
    assert_eq!(b.minus(a), d);
}

#[test]
fn adding_then_subtracting_gives_back_the_value() {
    let a = TimeRational { num: 7, den: 3 };
    let b = TimeRational { num: 5, den: 8 };
    assert_eq!((a + b) - b, a);
    assert_eq!(a + (b - a), b);
}

#[test]
fn comparisons_by_value() {
    let a = TimeRational { num: 1, den: 3 };
    let b = TimeRational { num: 2, den: 6 };
    assert!(a.same_instant(&b));
    assert!(a.at_most(&b));
    assert!(!a.less_than(&b));
    let c = TimeRational { num: 1, den: 2 };
    assert!(a.less_than(&c));
    assert_eq!(a.cmp(&c), std::cmp::Ordering::Less);
    assert_eq!(c.cmp(&a), std::cmp::Ordering::Greater);
    assert_eq!(a.later_of(c), c);
    let later = a.later_of(b);
    assert_eq!((later.num, later.den), (2, 6));
}
