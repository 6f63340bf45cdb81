use lsystem::extent::{get_drawing_dimensions, Bounds};
use lsystem::scalar::{Point, Scalar};
use lsystem::symbol::{Action, FillColor, LSystemSymbol, Variables};
use lsystem::system::{model, LSystem, Size, StackUnderflow};
use lsystem::turtle::Arithmetic;

fn num(value: f32) -> Scalar {
    Scalar { bits: value.to_bits() }
}

fn val(scalar: Scalar) -> f32 {
    f32::from_bits(scalar.bits)
}

fn point(x: f32, y: f32) -> Point {
    Point { x: num(x), y: num(y) }
}

fn sum(a: Scalar, b: Scalar) -> Scalar {
    num(val(a) + val(b))
}

fn difference(a: Scalar, b: Scalar) -> Scalar {
    num(val(a) - val(b))
}

fn product(a: Scalar, b: Scalar) -> Scalar {
    num(val(a) * val(b))
}

fn cosine(a: Scalar) -> Scalar {
    num(val(a).cos())
}

fn sine(a: Scalar) -> Scalar {
    num(val(a).sin())
}

fn rounded_product(a: Scalar, b: Scalar) -> Scalar {
    num((val(a) * val(b)).round())
}

type Plane = Arithmetic<
    fn(Scalar, Scalar) -> Scalar,
    fn(Scalar, Scalar) -> Scalar,
    fn(Scalar, Scalar) -> Scalar,
    fn(Scalar) -> Scalar,
    fn(Scalar) -> Scalar,
>;

fn plane() -> Plane {
    Arithmetic { sum, difference, product, cosine, sine }
}

fn grid() -> Plane {
    Arithmetic { sum, difference, product: rounded_product, cosine, sine }
}

fn system(state: Vec<LSystemSymbol>) -> LSystem {
    LSystem { state, dimensions: Size { width: num(0.0), height: num(0.0) } }
}

fn line(length: f32) -> Action {
    Action::DrawLine(num(length), FillColor::Inherit)
}

fn quarter() -> Action {
    Action::Rotate(num(std::f32::consts::FRAC_PI_2))
}

#[test]
fn the_start_system_is_ten_high() {
    let size = get_drawing_dimensions(&LSystem::initial(), &grid()).unwrap();
    assert_eq!(size, Size { width: num(0.0), height: num(10.0) });
}

#[test]
fn the_start_system_measured_with_true_cosines() {
    let size = get_drawing_dimensions(&LSystem::initial(), &plane()).unwrap();
    let x = 0.0 + std::f32::consts::FRAC_PI_2.cos() * 10.0;
    assert!(x < 0.0);
    assert_eq!(size, Size { width: num(0.0 - x), height: num(10.0) });
}

#[test]
fn an_empty_generation_has_no_size() {
    let size = get_drawing_dimensions(&system(Vec::new()), &plane()).unwrap();
    assert_eq!(size, Size { width: num(0.0), height: num(0.0) });
}

#[test]
fn circles_and_turns_do_not_widen_the_box() {
    let lsys = system(vec![LSystemSymbol::Constant(vec![
        Action::DrawCircle(FillColor::Inherit),
        quarter(),
        Action::Push,
        Action::DrawCircle(FillColor::Rgb(num(1.0), num(1.0), num(1.0))),
        Action::Pop,
    ])]);
    let size = get_drawing_dimensions(&lsys, &grid()).unwrap();
    assert_eq!(size, Size { width: num(0.0), height: num(0.0) });
}

#[test]
fn the_box_grows_on_every_side() {
    let lsys = system(vec![
        LSystemSymbol::Variable(Variables::A, vec![line(3.0), quarter(), line(4.0)]),
        LSystemSymbol::Constant(vec![quarter(), line(9.0), quarter()]),
        LSystemSymbol::Variable(Variables::B, vec![line(2.0)]),
    ]);
    let size = get_drawing_dimensions(&lsys, &grid()).unwrap();
    assert_eq!(size, Size { width: num(4.0), height: num(9.0) });
}

#[test]
fn a_restored_position_counts_from_where_it_was_saved() {
    let lsys = system(vec![LSystemSymbol::Constant(vec![
        Action::Push,
        line(5.0),
        Action::Pop,
        quarter(),
        quarter(),
        line(2.0),
    ])]);
    let size = get_drawing_dimensions(&lsys, &grid()).unwrap();
    assert_eq!(size, Size { width: num(0.0), height: num(7.0) });
}

#[test]
fn first_generation_of_the_sample() {
    let first = model(1, 100, &grid()).unwrap();
    assert_eq!(get_drawing_dimensions(&first, &grid()), Ok(first.dimensions));
    assert_eq!(first.dimensions, Size { width: num(14.0), height: num(17.0) });
}

#[test]
fn measuring_twice_gives_the_same_size() {
    let fifth = model(5, 100_000, &plane()).unwrap();
    let first = get_drawing_dimensions(&fifth, &plane());
    let second = get_drawing_dimensions(&fifth, &plane());
    assert_eq!(first, second);
    assert_eq!(first, Ok(fifth.dimensions));
}

#[test]
fn measuring_reports_the_first_unanswered_pop() {
    let lsys = system(vec![
        LSystemSymbol::Constant(vec![]),
        LSystemSymbol::Constant(vec![Action::Push, line(1.0)]),
        LSystemSymbol::Variable(Variables::C, vec![line(1.0), Action::Pop, Action::Pop]),
        LSystemSymbol::Constant(vec![Action::Pop]),
    ]);
    assert_eq!(
        get_drawing_dimensions(&lsys, &plane()),
        Err(StackUnderflow { symbol: 2, action: 2 })
    );
}

#[test]
fn a_nan_moves_no_side() {
    let mut bounds = Bounds { min: point(0.0, 0.0), max: point(1.0, 1.0) };
    bounds.stretch(point(f32::NAN, 5.0));
    assert_eq!(bounds, Bounds { min: point(0.0, 0.0), max: point(1.0, 5.0) });
    bounds.stretch(point(-2.0, f32::NAN));
    assert_eq!(bounds, Bounds { min: point(-2.0, 0.0), max: point(1.0, 5.0) });
}

#[test]
fn stretch_keeps_a_box_that_holds_the_point() {
    let mut bounds = Bounds { min: point(-1.0, -1.0), max: point(1.0, 1.0) };
    bounds.stretch(point(0.5, -1.0));
    bounds.stretch(point(-0.0, 1.0));
    assert_eq!(bounds, Bounds { min: point(-1.0, -1.0), max: point(1.0, 1.0) });
    bounds.stretch(point(3.0, -4.0));
    assert_eq!(bounds, Bounds { min: point(-1.0, -4.0), max: point(3.0, 1.0) });
}

fn flipped_difference(a: Scalar, b: Scalar) -> Scalar {
    num(val(a) * 100.0 - val(b))
}

#[test]
fn the_size_is_the_upper_side_less_the_lower() {
    let marked: Plane = Arithmetic {
        sum,
        difference: flipped_difference,
        product: rounded_product,
        cosine,
        sine,
    };
    let lsys = system(vec![LSystemSymbol::Constant(vec![
        line(3.0),
        quarter(),
        quarter(),
        line(5.0),
        quarter(),
        line(4.0),
    ])]);
    // The cursor goes up to (0, 3), down to (0, -2) and right to (4, -2).
    let size = get_drawing_dimensions(&lsys, &marked).unwrap();
    assert_eq!(size, Size { width: num(4.0 * 100.0 - 0.0), height: num(3.0 * 100.0 - -2.0) });
}
