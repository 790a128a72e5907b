use num::complex::Complex64;
use rust_apl::error::AplError;
use rust_apl::eval::Evaluator;
use rust_apl::nodes::{DyadicFn, MonadicFn};
use rust_apl::ops::{dyadic, monadic};
use rust_apl::print::Printable;
use rust_apl::primitives::{add, ceiling, conjugate, divide, floor, maximum, reciprocal, sign};
use rust_apl::value::{Complex, Real, Value};

#[derive(Clone, Copy, Debug, PartialEq)]
struct F(f64);

fn to_c(c: Complex<F>) -> Complex64 {
    Complex64::new(c.re.0, c.im.0)
}

fn from_c(c: Complex64) -> Complex<F> {
    Complex { re: F(c.re), im: F(c.im) }
}

impl Real for F {
    // The names that the library's contracts give to the results above: each is
    // the operation itself.
    fn spec_from_integer(i: i64) -> Self {
        Self::from_integer(i)
    }

    fn spec_from_decimal<T>(_text: T) -> Option<Self> {
        panic!("the reading of a text is named in contracts only")
    }

    fn spec_plus(self, other: Self) -> Self {
        self.plus(other)
    }

    fn spec_minus(self, other: Self) -> Self {
        self.minus(other)
    }

    fn spec_times(self, other: Self) -> Self {
        self.times(other)
    }

    fn spec_divided_by(self, other: Self) -> Self {
        self.divided_by(other)
    }

    fn spec_power(self, other: Self) -> Self {
        self.power(other)
    }

    fn spec_negated(self) -> Self {
        self.negated()
    }

    fn spec_absolute(self) -> Self {
        self.absolute()
    }

    fn spec_exponential(self) -> Self {
        self.exponential()
    }

    fn spec_ceiling(self) -> Self {
        self.ceiling()
    }

    fn spec_floor(self) -> Self {
        self.floor()
    }

    fn spec_to_integer(self) -> i64 {
        self.to_integer()
    }

    fn spec_is_zero(self) -> bool {
        self.is_zero()
    }

    fn spec_is_negative(self) -> bool {
        self.is_negative()
    }

    fn spec_is_positive(self) -> bool {
        self.is_positive()
    }

    fn spec_greater_than(self, other: Self) -> bool {
        self.greater_than(other)
    }

    fn spec_less_than(self, other: Self) -> bool {
        self.less_than(other)
    }

    fn spec_complex_plus(a: Complex<Self>, b: Complex<Self>) -> Complex<Self> {
        Self::complex_plus(a, b)
    }

    fn spec_complex_minus(a: Complex<Self>, b: Complex<Self>) -> Complex<Self> {
        Self::complex_minus(a, b)
    }

    fn spec_complex_times(a: Complex<Self>, b: Complex<Self>) -> Complex<Self> {
        Self::complex_times(a, b)
    }

    fn spec_complex_divided_by(a: Complex<Self>, b: Complex<Self>) -> Complex<Self> {
        Self::complex_divided_by(a, b)
    }

    fn spec_complex_negated(a: Complex<Self>) -> Complex<Self> {
        Self::complex_negated(a)
    }

    fn spec_complex_conjugate(a: Complex<Self>) -> Complex<Self> {
        Self::complex_conjugate(a)
    }

    fn spec_complex_absolute(a: Complex<Self>) -> Self {
        Self::complex_absolute(a)
    }

    fn spec_complex_exponential(a: Complex<Self>) -> Complex<Self> {
        Self::complex_exponential(a)
    }

    fn spec_real_power_complex(base: Self, exponent: Complex<Self>) -> Complex<Self> {
        Self::real_power_complex(base, exponent)
    }

    fn spec_decimal_text(self) -> String {
        self.decimal_text()
    }

    fn from_integer(i: i64) -> Self {
        F(i as f64)
    }
    fn from_decimal(text: &Vec<char>) -> Option<Self> {
        text.iter().collect::<String>().parse::<f64>().ok().map(F)
    }
    fn plus(self, other: Self) -> Self {
        F(self.0 + other.0)
    }
    fn minus(self, other: Self) -> Self {
        F(self.0 - other.0)
    }
    fn times(self, other: Self) -> Self {
        F(self.0 * other.0)
    }
    fn divided_by(self, other: Self) -> Self {
        F(self.0 / other.0)
    }
    fn power(self, other: Self) -> Self {
        F(self.0.powf(other.0))
    }
    fn negated(self) -> Self {
        F(-self.0)
    }
    fn absolute(self) -> Self {
        F(self.0.abs())
    }
    fn exponential(self) -> Self {
        F(self.0.exp())
    }
    fn ceiling(self) -> Self {
        F(self.0.ceil())
    }
    fn floor(self) -> Self {
        F(self.0.floor())
    }
    fn to_integer(self) -> i64 {
        self.0 as i64
    }
    fn is_zero(self) -> bool {
        self.0 == 0.0
    }
    fn is_negative(self) -> bool {
        self.0 < 0.0
    }
    fn is_positive(self) -> bool {
        self.0 > 0.0
    }
    fn greater_than(self, other: Self) -> bool {
        self.0 > other.0
    }
    fn less_than(self, other: Self) -> bool {
        self.0 < other.0
    }
    fn complex_plus(a: Complex<Self>, b: Complex<Self>) -> Complex<Self> {
        from_c(to_c(a) + to_c(b))
    }
    fn complex_minus(a: Complex<Self>, b: Complex<Self>) -> Complex<Self> {
        from_c(to_c(a) - to_c(b))
    }
    fn complex_times(a: Complex<Self>, b: Complex<Self>) -> Complex<Self> {
        from_c(to_c(a) * to_c(b))
    }
    fn complex_divided_by(a: Complex<Self>, b: Complex<Self>) -> Complex<Self> {
        from_c(to_c(a) / to_c(b))
    }
    fn complex_negated(a: Complex<Self>) -> Complex<Self> {
        from_c(-to_c(a))
    }
    fn complex_conjugate(a: Complex<Self>) -> Complex<Self> {
        from_c(to_c(a).conj())
    }
    fn complex_absolute(a: Complex<Self>) -> Self {
        F((a.re.0 * a.re.0 + a.im.0 * a.im.0).sqrt())
    }
    fn complex_exponential(a: Complex<Self>) -> Complex<Self> {
        let scale = std::f64::consts::E.powf(a.re.0);
        from_c(Complex64::new(scale, 0.0) * Complex64::new(a.im.0.cos(), a.im.0.sin()))
    }
    fn decimal_text(self) -> String {
        format!("{}", self.0)
    }

    fn real_power_complex(base: Self, exponent: Complex<Self>) -> Complex<Self> {
        let scale = base.0.powf(exponent.re.0);
        let angle = exponent.im.0 * base.0.ln();
        Complex { re: F(scale * angle.cos()), im: F(scale * angle.sin()) }
    }
}

fn run(text: &str) -> Result<Box<Value<F>>, AplError> {
    Evaluator::new(text.to_string()).eval::<F>()
}

fn integer_of(r: Result<Box<Value<F>>, AplError>) -> i64 {
    match *r.expect("a value") {
        Value::AplInteger(i) => i,
        other => panic!("not an integer: {:?}", other),
    }
}

fn float_of(r: Result<Box<Value<F>>, AplError>) -> f64 {
    match *r.expect("a value") {
        Value::AplFloat(F(x)) => x,
        other => panic!("not a float: {:?}", other),
    }
}

fn integers_of(r: Result<Box<Value<F>>, AplError>) -> (usize, Vec<usize>, Vec<i64>) {
    match *r.expect("a value") {
        Value::AplArray(depth, shape, items) => {
            let values = items
                .into_iter()
                .map(|v| match *v {
                    Value::AplInteger(i) => i,
                    other => panic!("not an integer: {:?}", other),
                })
                .collect();
            (depth, shape, values)
        }
        other => panic!("not an array: {:?}", other),
    }
}

fn int_array(items: &[i64]) -> Value<F> {
    Value::AplArray(
        1,
        vec![items.len()],
        items.iter().map(|i| Box::new(Value::AplInteger(*i))).collect(),
    )
}

#[test]
fn integers_add_to_an_integer() {
    assert_eq!(integer_of(run("2+3")), 5);
}

#[test]
fn a_float_operand_gives_a_float() {
    assert_eq!(float_of(run("2.0+3")), 5.0);
}

#[test]
fn division_by_zero_is_a_domain_error() {
    assert_eq!(run("5÷0").err(), Some(AplError::DivisionByZero));
}

#[test]
fn zero_to_a_negative_power_is_a_domain_error() {
    assert_eq!(run("0⋆¯1").err(), Some(AplError::ZeroToNegativePower));
}

#[test]
fn arrays_add_element_by_element() {
    assert_eq!(integers_of(run("1 2 3+4 5 6")), (1, vec![3], vec![5, 7, 9]));
}

#[test]
fn arrays_of_different_length_give_a_length_error() {
    assert_eq!(run("1 2+1 2 3").err(), Some(AplError::Length));
}

#[test]
fn arrays_of_different_depth_give_a_rank_error() {
    let flat = int_array(&[1, 2]);
    let nested: Value<F> = Value::AplArray(2, vec![2], vec![Box::new(int_array(&[1])), Box::new(int_array(&[2]))]);
    assert_eq!(add(&flat, &nested).err(), Some(AplError::Rank));
}

#[test]
fn a_complex_literal_evaluates_to_a_complex_number() {
    match *run("3J4").expect("a value") {
        Value::AplComplex(c) => assert_eq!((c.re.0, c.im.0), (3.0, 4.0)),
        other => panic!("not complex: {:?}", other),
    }
}

#[test]
fn the_magnitude_of_a_complex_number_is_a_float() {
    assert_eq!(float_of(run("|3J4")), 5.0);
}

#[test]
fn conjugate_twice_gives_back_an_integer_or_a_float() {
    let i: Value<F> = Value::AplInteger(7);
    let once = conjugate(&i).unwrap();
    assert!(matches!(*conjugate(&once).unwrap(), Value::AplInteger(7)));
    let f: Value<F> = Value::AplFloat(F(2.5));
    let once = conjugate(&f).unwrap();
    assert!(matches!(*conjugate(&once).unwrap(), Value::AplFloat(F(x)) if x == 2.5));
}

#[test]
fn conjugate_keeps_an_array_without_complex_numbers() {
    let a = int_array(&[1, -2, 3]);
    assert_eq!(integers_of(conjugate(&a)), (1, vec![3], vec![1, -2, 3]));
}

#[test]
fn conjugate_of_a_complex_number_negates_its_imaginary_part() {
    match *run("+3J4").expect("a value") {
        Value::AplComplex(c) => assert_eq!((c.re.0, c.im.0), (3.0, -4.0)),
        other => panic!("not complex: {:?}", other),
    }
}

#[test]
fn ceiling_and_floor_of_a_float_are_integers() {
    assert_eq!(integer_of(run("⌈2.3")), 3);
    assert_eq!(integer_of(run("⌊2.3")), 2);
}

#[test]
fn ceiling_and_floor_keep_an_integer() {
    let i: Value<F> = Value::AplInteger(-4);
    assert!(matches!(*ceiling(&i).unwrap(), Value::AplInteger(-4)));
    assert!(matches!(*floor(&i).unwrap(), Value::AplInteger(-4)));
}

#[test]
fn evaluation_goes_right_to_left() {
    assert_eq!(integer_of(run("2×3+4")), 14);
    assert_eq!(integer_of(run("10-4-3")), 9);
}

#[test]
fn a_monadic_glyph_takes_everything_to_its_right() {
    assert_eq!(integer_of(run("-2+3")), -5);
}

#[test]
fn a_scalar_broadcasts_over_an_array() {
    assert_eq!(integers_of(run("10×1 2 3")), (1, vec![3], vec![10, 20, 30]));
    assert_eq!(integers_of(run("1 2 3-1")), (1, vec![3], vec![0, 1, 2]));
    assert_eq!(integers_of(run("-1 2")), (1, vec![2], vec![-1, -2]));
}

#[test]
fn exact_integer_division_stays_integral() {
    assert_eq!(integer_of(run("6÷3")), 2);
    assert_eq!(integer_of(run("¯6÷3")), -2);
    assert_eq!(float_of(run("7÷2")), 3.5);
}

#[test]
fn integer_powers_are_exact() {
    assert_eq!(integer_of(run("2⋆10")), 1024);
    assert_eq!(integer_of(run("¯1*3")), -1);
    assert_eq!(integer_of(run("3⋆0")), 1);
    assert_eq!(float_of(run("2⋆¯1")), 0.5);
}

#[test]
fn integer_overflow_promotes_to_float() {
    assert_eq!(float_of(run("9223372036854775807+1")), 9223372036854775808.0);
    assert_eq!(float_of(run("99999999999999999999")), 99999999999999999999.0);
}

#[test]
fn maximum_and_minimum_keep_the_winning_operand() {
    assert_eq!(integer_of(run("3⌈5")), 5);
    assert_eq!(integer_of(run("3⌊5")), 3);
    assert_eq!(float_of(run("2.5⌈1")), 2.5);
    assert_eq!(integer_of(run("2.5⌊1")), 1);
}

#[test]
fn maximum_of_a_complex_number_is_unsupported() {
    assert_eq!(run("1J1⌈2").err(), Some(AplError::ComplexUnsupported));
    let c: Value<F> = Value::AplComplex(Complex { re: F(1.0), im: F(1.0) });
    assert_eq!(maximum(&Value::AplInteger(1), &c).err(), Some(AplError::ComplexUnsupported));
}

#[test]
fn a_complex_base_has_no_power() {
    assert_eq!(run("1J1⋆2").err(), Some(AplError::ComplexUnsupported));
}

#[test]
fn signs_of_reals_are_integers() {
    assert_eq!(integers_of(run("×¯3 0 4")), (1, vec![3], vec![-1, 0, 1]));
    assert_eq!(integer_of(run("×¯0.5")), -1);
}

#[test]
fn the_sign_of_complex_zero_is_a_domain_error() {
    let zero: Value<F> = Value::AplComplex(Complex { re: F(0.0), im: F(0.0) });
    assert_eq!(sign(&zero).err(), Some(AplError::DivisionByZero));
}

#[test]
fn reciprocal_divides_one() {
    assert_eq!(float_of(run("÷4")), 0.25);
    assert_eq!(integer_of(run("÷1")), 1);
    assert_eq!(reciprocal(&Value::<F>::AplInteger(0)).err(), Some(AplError::DivisionByZero));
}

#[test]
fn magnitude_and_negation_of_integers() {
    assert_eq!(integer_of(run("|¯5")), 5);
    assert_eq!(integer_of(run("-¯5")), 5);
}

#[test]
fn exponential_of_zero_is_one() {
    assert_eq!(float_of(run("⋆0")), 1.0);
}

#[test]
fn the_first_failing_element_decides_the_error() {
    let a = int_array(&[1, 0, 2]);
    assert_eq!(divide(&Value::AplInteger(1), &a).err(), Some(AplError::DivisionByZero));
    assert_eq!(dyadic(DyadicFn::Division, &a, &Value::<F>::AplInteger(0)).err(), Some(AplError::DivisionByZero));
    assert_eq!(monadic(MonadicFn::Reciprocal, &a).err(), Some(AplError::DivisionByZero));
}

#[test]
fn a_blank_line_is_an_end_of_input_error() {
    assert_eq!(run("\n").err(), Some(AplError::EndOfInput));
    assert_eq!(run("   ⍝ only a comment").err(), Some(AplError::EndOfInput));
}

#[test]
fn names_and_zilde_are_not_evaluated() {
    assert_eq!(run("x").err(), Some(AplError::NotImplemented));
    assert_eq!(run("⍬").err(), Some(AplError::NotImplemented));
}

#[test]
fn parse_errors_are_returned() {
    assert_eq!(run("1+").err(), Some(AplError::UnexpectedEndOfSource));
    assert_eq!(run("1=2").err(), Some(AplError::UnknownOperator));
    assert_eq!(run("(1)").err(), Some(AplError::NotImplemented));
    assert_eq!(run("=1").err(), Some(AplError::UnexpectedPrimitive));
    assert_eq!(run("'a'").err(), Some(AplError::UnexpectedToken));
}

#[test]
fn lexical_errors_are_returned() {
    assert_eq!(run("1.2.3").err(), Some(AplError::InvalidNumber));
    assert_eq!(run("1+§").err(), Some(AplError::UnknownCharacter('§')));
}

#[test]
fn a_statement_ends_at_a_line_break() {
    assert_eq!(integer_of(run("2+3\n")), 5);
    assert_eq!(integer_of(run("2+3\r\n")), 5);
}

#[test]
fn values_print_as_the_interpreter_shows_them() {
    assert_eq!(run("1 2 3+4 5 6").unwrap().to_string(), "5 7 9");
    assert_eq!(run("¯5").unwrap().to_string(), "-5");
    assert_eq!(run("¯9223372036854775807-1").unwrap().to_string(), "-9223372036854775808");
    assert_eq!(run("2.5").unwrap().to_string(), "2.5");
    assert_eq!(run("3J¯4").unwrap().to_string(), "3J-4");
    assert_eq!(run("7").unwrap().to_typed_string(), "INTEGER(7)");
    assert_eq!(run("1 2").unwrap().to_typed_string(), "ARRAY(1 2)");
    assert_eq!(run("0.5").unwrap().to_typed_string(), "FLOAT(0.5)");
}
