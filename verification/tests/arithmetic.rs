use forth::arith::{divide, minus, modulo, plus, times};
use forth::{Error, Machine, Word};

const SAMPLES: [i32; 15] = [
    i32::MIN,
    i32::MIN + 1,
    -65536,
    -1000,
    -7,
    -2,
    -1,
    0,
    1,
    2,
    7,
    1000,
    65536,
    i32::MAX - 1,
    i32::MAX,
];

#[test]
fn plus_minus_times_wrap_around() {
    for a in SAMPLES {
        for b in SAMPLES {
            assert_eq!(plus(a, b), a.wrapping_add(b));
            assert_eq!(minus(a, b), a.wrapping_sub(b));
            assert_eq!(times(a, b), a.wrapping_mul(b));
        }
    }
    assert_eq!(plus(i32::MAX, 1), i32::MIN);
    assert_eq!(minus(i32::MIN, 1), i32::MAX);
    assert_eq!(times(65536, 65536), 0);
    assert_eq!(times(i32::MIN, -1), i32::MIN);
}

#[test]
fn divide_and_modulo_round_toward_zero() {
    for a in SAMPLES {
        for b in SAMPLES {
            if b != 0 {
                assert_eq!(divide(a, b), a.wrapping_div(b));
                assert_eq!(modulo(a, b), a.wrapping_rem(b));
                let q = divide(a, b) as i64;
                let r = modulo(a, b) as i64;
                if !(a == i32::MIN && b == -1) {
                    assert_eq!(a as i64, b as i64 * q + r);
                }
                assert!(r.abs() < (b as i64).abs());
                assert!(r == 0 || (r < 0) == (a < 0));
            }
        }
    }
    assert_eq!(divide(-7, 2), -3);
    assert_eq!(modulo(-7, 2), -1);
    assert_eq!(divide(7, -2), -3);
    assert_eq!(modulo(7, -2), 1);
}

#[test]
fn least_integer_by_minus_one_wraps() {
    assert_eq!(divide(i32::MIN, -1), i32::MIN);
    assert_eq!(modulo(i32::MIN, -1), 0);
    let mut m = Machine::default();
    assert_eq!(m.eval("-2147483648 -1 /mod"), Ok(String::new()));
    assert_eq!(m.stack(), &vec![0, i32::MIN]);
}

#[test]
fn sums_on_the_machine_wrap_around() {
    let mut m = Machine::default();
    assert_eq!(m.eval("2147483647 1 + ."), Ok("-2147483648 ".to_string()));
    assert_eq!(m.eval("-2147483648 1 - ."), Ok("2147483647 ".to_string()));
    assert_eq!(m.eval("65536 65536 * ."), Ok("0 ".to_string()));
    assert_eq!(m.eval("46341 46341 * ."), Ok("-2147479015 ".to_string()));
}

#[test]
fn every_pair_agrees_with_the_line() {
    for a in SAMPLES {
        for b in SAMPLES {
            let mut m = Machine::default();
            assert_eq!(m.eval(&format!("{} {} +", a, b)), Ok(String::new()));
            assert_eq!(m.eval(&format!("{} {} -", a, b)), Ok(String::new()));
            assert_eq!(m.eval(&format!("{} {} *", a, b)), Ok(String::new()));
            assert_eq!(
                m.stack(),
                &vec![a.wrapping_add(b), a.wrapping_sub(b), a.wrapping_mul(b)]
            );
            let mut m = Machine::default();
            let line = format!("{} {} / {} {} mod {} {} /mod", a, b, a, b, a, b);
            if b == 0 {
                assert_eq!(m.eval(&line), Err(Error::DivisionByZero(Word::Slash)));
                assert!(m.stack().is_empty());
            } else {
                assert_eq!(m.eval(&line), Ok(String::new()));
                let q = a.wrapping_div(b);
                let r = a.wrapping_rem(b);
                assert_eq!(m.stack(), &vec![q, r, r, q]);
            }
        }
    }
}

#[test]
fn operands_are_taken_in_order() {
    let mut m = Machine::default();
    assert_eq!(m.eval("10 3 - ."), Ok("7 ".to_string()));
    assert_eq!(m.eval("10 3 / ."), Ok("3 ".to_string()));
    assert_eq!(m.eval("10 3 mod ."), Ok("1 ".to_string()));
    assert_eq!(m.eval("10 3 /mod . ."), Ok("3 1 ".to_string()));
}
