use prefix_calc::calculator::calculate;
use prefix_calc::calculator::convert_cell_vector_to_string;
use prefix_calc::calculator::parse_to_vec_and_map;
use prefix_calc::calculator::Bindings;
use prefix_calc::calculator::Cell;
use prefix_calc::infix::translate_prefix;
use prefix_calc::prefix::get_precedence;
use prefix_calc::prefix::translate_infix;

fn eval_infix(input: &str) -> Result<String, String> {
    let prefix = translate_infix(input);
    let (cells, map) = parse_to_vec_and_map(prefix.as_str())?;
    let result = calculate(&cells, &map)?;
    Ok(convert_cell_vector_to_string(&result))
}

#[test]
fn arithmetic_through_translation() {
    assert_eq!(Ok(String::from("4.00000000")), eval_infix("2 + 2"));
    assert_eq!(Ok(String::from("0.00000000")), eval_infix("2 - 2"));
    assert_eq!(Ok(String::from("4.00000000")), eval_infix("2 * 2"));
    assert_eq!(Ok(String::from("1.00000000")), eval_infix("2 / 2"));
}

#[test]
fn parenthesis_round_trip() {
    let original = "(a + b * c) / (d - f / g)";
    let prefix = translate_infix(original);
    assert_eq!("/ ( + a * b c ) ( - d / f g )", prefix);
    assert_eq!(original, translate_prefix(prefix.as_str()));
}

#[test]
fn simple_round_trip() {
    let original = "x + y";
    assert_eq!(original, translate_prefix(translate_infix(original).as_str()));
}

#[test]
fn unbound_variable_fails() {
    let (cells, map) = parse_to_vec_and_map("+ a 1").ok().unwrap();
    let result = calculate(&cells, &map);
    assert!(result.is_err());
    assert_eq!("Variable a does not have a defined value.", result.err().unwrap());
}

#[test]
fn assignment_missing_value_fails() {
    let result = parse_to_vec_and_map("= a");
    assert!(result.is_err());
    assert_eq!(
        "Equals can only take the form of variable = value.",
        result.err().unwrap()
    );
}

#[test]
fn assignment_non_numeric_value_fails() {
    let result = parse_to_vec_and_map("= a b");
    assert!(result.is_err());
    assert_eq!(
        "Equals can only take the form of variable = value.",
        result.err().unwrap()
    );
}

#[test]
fn assignment_trailing_token_fails() {
    let result = parse_to_vec_and_map("= a 1 2");
    assert!(result.is_err());
    assert_eq!(
        "Equals can only take the form of variable = value. Cannot solve for value.",
        result.err().unwrap()
    );
}

#[test]
fn assignment_negative_literal_splits() {
    // The word-boundary tokenizer splits `-3` into `-` and `3`, so the
    // statement carries four tokens and is rejected as having a trailing
    // token.
    let result = parse_to_vec_and_map("= a -3");
    assert!(result.is_err());
    assert_eq!(
        "Equals can only take the form of variable = value. Cannot solve for value.",
        result.err().unwrap()
    );
}

#[test]
fn operator_without_operands_fails() {
    let (cells, map) = parse_to_vec_and_map("+ 2").ok().unwrap();
    let result = calculate(&cells, &map);
    assert!(result.is_err());
    assert_eq!("Not enough values to apply to Operator +.", result.err().unwrap());
}

#[test]
fn format_parse_format_is_stable() {
    let cells = vec![
        Cell::Operator(String::from("+")),
        Cell::Variable(String::from("x")),
        Cell::Variable(String::from("y")),
    ];
    let once = convert_cell_vector_to_string(&cells);
    assert_eq!("+ x y", once);
    let (cells2, map) = parse_to_vec_and_map(once.as_str()).ok().unwrap();
    assert!(map.is_empty());
    assert_eq!(once, convert_cell_vector_to_string(&cells2));
}

#[test]
fn long_payloads_are_cut_to_eight() {
    let cells = vec![
        Cell::Variable(String::from("abcdefghij")),
        Cell::Variable(String::from("short")),
    ];
    assert_eq!("abcdefgh short", convert_cell_vector_to_string(&cells));
}

#[test]
fn fixed_point_rendering() {
    let cells = vec![Cell::Value(2.0f64.to_bits())];
    assert_eq!("2.00000000", convert_cell_vector_to_string(&cells));
    let cells = vec![Cell::Value((-1.5f64).to_bits())];
    assert_eq!("-1.50000000", convert_cell_vector_to_string(&cells));
    let cells = vec![Cell::Value((-0.0f64).to_bits())];
    assert_eq!("-0.00000000", convert_cell_vector_to_string(&cells));
    let cells = vec![Cell::Value(f64::NAN.to_bits())];
    assert_eq!("NaN", convert_cell_vector_to_string(&cells));
    let cells = vec![Cell::Value(f64::INFINITY.to_bits())];
    assert_eq!("inf", convert_cell_vector_to_string(&cells));
}

#[test]
fn division_rounds_to_eight_digits() {
    let (cells, map) = parse_to_vec_and_map("/ 1 3").ok().unwrap();
    let result = calculate(&cells, &map).ok().unwrap();
    assert_eq!("0.33333333", convert_cell_vector_to_string(&result));
}

#[test]
fn division_by_zero_is_infinite() {
    let (cells, map) = parse_to_vec_and_map("/ 2 0").ok().unwrap();
    let result = calculate(&cells, &map).ok().unwrap();
    assert_eq!("inf", convert_cell_vector_to_string(&result));
}

#[test]
fn empty_input_parses_to_nothing() {
    let (cells, map) = parse_to_vec_and_map("").ok().unwrap();
    assert!(cells.is_empty());
    assert!(map.is_empty());
}

#[test]
fn precedence_levels() {
    assert_eq!(3, get_precedence("="));
    assert_eq!(2, get_precedence("*"));
    assert_eq!(2, get_precedence("/"));
    assert_eq!(1, get_precedence("+"));
    assert_eq!(1, get_precedence("-"));
    assert_eq!(0, get_precedence("word"));
    assert_eq!(0, get_precedence("("));
}

#[test]
fn bindings_insert_and_lookup() {
    let mut table = Bindings::new();
    assert!(table.is_empty());
    table.insert(String::from("a"), 1.0f64.to_bits());
    table.insert(String::from("b"), 2.0f64.to_bits());
    table.insert(String::from("a"), 3.0f64.to_bits());
    assert!(!table.is_empty());
    assert_eq!(Some(3.0f64.to_bits()), table.get("a"));
    assert_eq!(Some(2.0f64.to_bits()), table.get("b"));
    assert_eq!(None, table.get("c"));
}

#[test]
fn bindings_merge_prefers_newcomer() {
    let mut table = Bindings::new();
    table.insert(String::from("a"), 1.0f64.to_bits());
    let mut other = Bindings::new();
    other.insert(String::from("a"), 5.0f64.to_bits());
    other.insert(String::from("b"), 6.0f64.to_bits());
    table.merge_from(&other);
    assert_eq!(Some(5.0f64.to_bits()), table.get("a"));
    assert_eq!(Some(6.0f64.to_bits()), table.get("b"));
}

#[test]
fn variable_substitution_sums_to_ten() {
    let (cells, mut table) = parse_to_vec_and_map("+ + a b + c d").ok().unwrap();
    for stmt in ["= a 1", "= b 2", "= c 3", "= d 4"] {
        let (rest, frag) = parse_to_vec_and_map(stmt).ok().unwrap();
        assert!(rest.is_empty());
        table.merge_from(&frag);
    }
    let result = calculate(&cells, &table).ok().unwrap();
    assert_eq!("10.00000000", convert_cell_vector_to_string(&result));
}
