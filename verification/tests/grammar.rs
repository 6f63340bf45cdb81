use lsystem::grammar::{rules1, rules1_table, Rule, RuleTable};
use lsystem::scalar::Scalar;
use lsystem::symbol::{
    append_copies, copy_actions, Action, FillColor, LSystemSymbol, Variables,
};
use lsystem::system::{grow, model, proceed_system, GrowthError, LSystem, Size, StackUnderflow};
use lsystem::turtle::Arithmetic;

fn num(value: f32) -> Scalar {
    Scalar { bits: value.to_bits() }
}

fn val(scalar: Scalar) -> f32 {
    f32::from_bits(scalar.bits)
}

fn sum(a: Scalar, b: Scalar) -> Scalar {
    num(val(a) + val(b))
}

fn difference(a: Scalar, b: Scalar) -> Scalar {
    num(val(a) - val(b))
}

fn rounded_product(a: Scalar, b: Scalar) -> Scalar {
    num((val(a) * val(b)).round())
}

fn cosine(a: Scalar) -> Scalar {
    num(val(a).cos())
}

fn sine(a: Scalar) -> Scalar {
    num(val(a).sin())
}

type Grid = Arithmetic<
    fn(Scalar, Scalar) -> Scalar,
    fn(Scalar, Scalar) -> Scalar,
    fn(Scalar, Scalar) -> Scalar,
    fn(Scalar) -> Scalar,
    fn(Scalar) -> Scalar,
>;

fn grid() -> Grid {
    Arithmetic { sum, difference, product: rounded_product, cosine, sine }
}

fn line(length: f32, fill: FillColor) -> Action {
    Action::DrawLine(num(length), fill)
}

fn color(red: f32, green: f32, blue: f32) -> FillColor {
    FillColor::Rgb(num(red), num(green), num(blue))
}

fn production_a() -> Vec<LSystemSymbol> {
    vec![
        LSystemSymbol::Variable(Variables::B, vec![line(10.0, color(0.6, 0.2, 0.8))]),
        LSystemSymbol::Constant(vec![
            Action::Push,
            Action::Rotate(num(std::f32::consts::PI * 0.25)),
        ]),
        LSystemSymbol::Variable(
            Variables::A,
            vec![line(10.0, color(1.0, 0.2, 0.5)), Action::DrawCircle(FillColor::Inherit)],
        ),
        LSystemSymbol::Constant(vec![
            Action::Pop,
            Action::Rotate(num(std::f32::consts::PI * -0.25)),
        ]),
        LSystemSymbol::Variable(
            Variables::A,
            vec![line(10.0, color(0.1, 0.7, 0.7)), Action::DrawCircle(color(0.0, 0.8, 0.2))],
        ),
    ]
}

fn production_b() -> Vec<LSystemSymbol> {
    vec![
        LSystemSymbol::Variable(Variables::B, vec![line(10.0, color(0.3, 0.5, 0.8))]),
        LSystemSymbol::Variable(Variables::B, vec![line(10.0, FillColor::Inherit)]),
    ]
}

fn count(state: &[LSystemSymbol], wanted: Action) -> usize {
    state
        .iter()
        .map(|symbol| match symbol {
            LSystemSymbol::Variable(_, actions) | LSystemSymbol::Constant(actions) => {
                actions.iter().filter(|action| **action == wanted).count()
            }
        })
        .sum()
}

#[test]
fn rules1_gives_the_two_productions() {
    assert_eq!(rules1(Variables::A), production_a());
    assert_eq!(rules1(Variables::B), production_b());
}

#[test]
fn rules1_gives_nothing_for_the_other_variables() {
    for var in [
        Variables::C,
        Variables::D,
        Variables::E,
        Variables::F,
        Variables::G,
        Variables::H,
    ] {
        assert_eq!(rules1(var), Vec::new());
    }
}

#[test]
fn rules1_table_has_a_rule_for_every_variable() {
    let table = rules1_table();
    assert_eq!(table.lookup(Variables::A), Some(&production_a()));
    assert_eq!(table.lookup(Variables::B), Some(&production_b()));
    assert_eq!(table.lookup(Variables::C), Some(&Vec::new()));
    assert_eq!(table.lookup(Variables::H), Some(&Vec::new()));
}

#[test]
fn an_empty_table_has_no_rule() {
    let table = RuleTable::new();
    assert_eq!(table.lookup(Variables::A), None);
    assert_eq!(table, RuleTable { rules: Vec::<Rule>::new() });
}

#[test]
fn a_later_rule_replaces_an_earlier_one() {
    let mut table = RuleTable::new();
    table.define(Variables::A, production_a());
    table.define(Variables::B, production_b());
    table.define(Variables::A, production_b());
    assert_eq!(table.lookup(Variables::A), Some(&production_b()));
    assert_eq!(table.lookup(Variables::B), Some(&production_b()));
    assert_eq!(table.lookup(Variables::C), None);
}

#[test]
fn initial_system_is_the_single_symbol() {
    let system = LSystem::initial();
    assert_eq!(
        system.state,
        vec![LSystemSymbol::Variable(Variables::A, vec![line(10.0, FillColor::Inherit)])]
    );
    assert_eq!(system.dimensions, Size { width: num(0.0), height: num(10.0) });
}

#[test]
fn zero_generations_leave_the_start() {
    let made = model(0, 1000, &grid()).unwrap();
    assert_eq!(made, LSystem::initial());
    let mut system = LSystem::initial();
    assert_eq!(grow(&mut system, &rules1_table(), 0, 0, &grid()), Ok(()));
    assert_eq!(system, LSystem::initial());
}

#[test]
fn one_rewrite_gives_the_production_of_a() {
    let mut system = LSystem::initial();
    assert_eq!(proceed_system(&mut system, &rules1_table(), 1000, &grid()), Ok(()));
    assert_eq!(system.state.len(), 5);
    assert_eq!(system.state, production_a());
}

#[test]
fn second_generation_expands_in_order() {
    let made = model(2, 1000, &grid()).unwrap();
    let mut expected = production_b();
    expected.push(production_a()[1].clone());
    expected.extend(production_a());
    expected.push(production_a()[3].clone());
    expected.extend(production_a());
    assert_eq!(made.state, expected);
    assert_eq!(made.state.len(), 14);
}

#[test]
fn constants_pass_and_own_actions_are_discarded() {
    let mut table = RuleTable::new();
    table.define(
        Variables::C,
        vec![LSystemSymbol::Constant(vec![Action::Rotate(num(1.0))])],
    );
    let mut system = LSystem {
        state: vec![
            LSystemSymbol::Constant(vec![line(2.0, FillColor::Background)]),
            LSystemSymbol::Variable(Variables::C, vec![line(7.0, FillColor::Inherit)]),
            LSystemSymbol::Constant(vec![]),
        ],
        dimensions: Size { width: num(0.0), height: num(0.0) },
    };
    assert_eq!(proceed_system(&mut system, &table, 10, &grid()), Ok(()));
    assert_eq!(
        system.state,
        vec![
            LSystemSymbol::Constant(vec![line(2.0, FillColor::Background)]),
            LSystemSymbol::Constant(vec![Action::Rotate(num(1.0))]),
            LSystemSymbol::Constant(vec![]),
        ]
    );
}

#[test]
fn a_variable_without_a_rule_is_dropped() {
    let mut table = RuleTable::new();
    table.define(Variables::A, production_b());
    let mut system = LSystem {
        state: vec![
            LSystemSymbol::Variable(Variables::D, vec![line(1.0, FillColor::Inherit)]),
            LSystemSymbol::Variable(Variables::A, vec![]),
            LSystemSymbol::Variable(Variables::E, vec![Action::Pop]),
        ],
        dimensions: Size { width: num(0.0), height: num(0.0) },
    };
    assert_eq!(proceed_system(&mut system, &table, 10, &grid()), Ok(()));
    assert_eq!(system.state, production_b());
}

#[test]
fn the_ceiling_is_checked_before_anything_changes() {
    let mut system = LSystem::initial();
    let before = system.clone();
    assert_eq!(
        proceed_system(&mut system, &rules1_table(), 4, &grid()),
        Err(GrowthError::SymbolLimit)
    );
    assert_eq!(system, before);
    assert_eq!(proceed_system(&mut system, &rules1_table(), 5, &grid()), Ok(()));
    assert_eq!(system.state.len(), 5);
}

#[test]
fn model_stops_at_the_ceiling() {
    assert_eq!(model(2, 13, &grid()), Err(GrowthError::SymbolLimit));
    assert_eq!(model(2, 14, &grid()).unwrap().state.len(), 14);
    assert_eq!(model(6, 13, &grid()), Err(GrowthError::SymbolLimit));
}

#[test]
fn grow_keeps_the_last_generation_it_reached() {
    let mut system = LSystem::initial();
    assert_eq!(
        grow(&mut system, &rules1_table(), 3, 14, &grid()),
        Err(GrowthError::SymbolLimit)
    );
    assert_eq!(system, model(2, 14, &grid()).unwrap());
}

#[test]
fn an_unbalanced_table_is_reported_and_leaves_the_system() {
    let mut table = RuleTable::new();
    table.define(
        Variables::A,
        vec![
            LSystemSymbol::Constant(vec![Action::Push, Action::Pop]),
            LSystemSymbol::Variable(Variables::A, vec![line(1.0, FillColor::Inherit)]),
            LSystemSymbol::Constant(vec![Action::Rotate(num(0.5)), Action::Pop]),
        ],
    );
    let mut system = LSystem::initial();
    let before = system.clone();
    let expected = Err(GrowthError::StackUnderflow(StackUnderflow { symbol: 2, action: 1 }));
    assert_eq!(proceed_system(&mut system, &table, 100, &grid()), expected);
    assert_eq!(system, before);
    assert_eq!(proceed_system(&mut system, &table, 100, &grid()), expected);
}

#[test]
fn every_generation_of_the_sample_is_balanced() {
    for generations in 0..7 {
        let made = model(generations, 100_000, &grid()).unwrap();
        assert_eq!(count(&made.state, Action::Push), count(&made.state, Action::Pop));
    }
    let sixth = model(6, 100_000, &grid()).unwrap();
    assert_eq!(count(&sixth.state, Action::Push), 63);
}

#[test]
fn two_runs_give_the_same_system() {
    let first = model(5, 100_000, &grid()).unwrap();
    let second = model(5, 100_000, &grid()).unwrap();
    assert_eq!(first, second);
    assert_eq!(first.dimensions, second.dimensions);
}

#[test]
fn dimensions_follow_the_generation() {
    let made = model(1, 100, &grid()).unwrap();
    assert_eq!(made.dimensions, Size { width: num(14.0), height: num(17.0) });
}

#[test]
fn copies_are_equal_and_independent() {
    let actions = vec![Action::Push, line(3.0, color(0.5, 0.5, 0.5)), Action::Pop];
    let mut copy = copy_actions(&actions);
    assert_eq!(copy, actions);
    copy.push(Action::Push);
    assert_eq!(actions.len(), 3);
    let symbol = LSystemSymbol::Variable(Variables::G, actions.clone());
    assert_eq!(symbol.duplicate(), symbol);
    assert_eq!(symbol.actions(), &actions);
    let constant = LSystemSymbol::Constant(actions.clone());
    assert_eq!(constant.duplicate(), constant);
}

#[test]
fn clones_are_equal() {
    let fourth = model(4, 100_000, &grid()).unwrap();
    assert_eq!(fourth.clone(), fourth);
    assert_eq!(production_a()[2].clone(), production_a()[2]);
}

#[test]
fn copies_are_appended_in_order() {
    let mut target = production_b();
    append_copies(&mut target, &production_a());
    let mut expected = production_b();
    expected.extend(production_a());
    assert_eq!(target, expected);
    append_copies(&mut target, &Vec::new());
    assert_eq!(target, expected);
}

#[test]
fn the_first_variable_without_a_rule_is_found() {
    let mut table = RuleTable::new();
    table.define(Variables::A, production_a());
    assert_eq!(table.first_undefined(&production_a()), Some(0));
    table.define(Variables::B, production_b());
    assert_eq!(table.first_undefined(&production_a()), None);
    assert_eq!(table.first_undefined(&Vec::new()), None);
    let state = vec![
        LSystemSymbol::Constant(vec![Action::Push]),
        LSystemSymbol::Variable(Variables::B, vec![]),
        LSystemSymbol::Variable(Variables::F, vec![]),
        LSystemSymbol::Variable(Variables::G, vec![]),
    ];
    assert_eq!(table.first_undefined(&state), Some(2));
    assert_eq!(rules1_table().first_undefined(&state), None);
}
