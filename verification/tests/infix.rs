use prefix_calc::infix::translate_prefix;

#[test]
fn mod_test_simple_add() {
    let input = "+ 2 2";
    let result = "2 + 2";
    assert_eq!(result, translate_prefix(input));
}

#[test]
fn mod_test_simple_subtract() {
    let input = "- 2 2";
    let result = "2 - 2";
    assert_eq!(result, translate_prefix(input));
}

#[test]
fn mod_test_simple_multiply() {
    let input = "* 2 2";
    let result = "2 * 2";
    assert_eq!(result, translate_prefix(input));
}

#[test]
fn mod_test_simple_divide() {
    let input = "/ 2 2";
    let result = "2 / 2";
    assert_eq!(result, translate_prefix(input));
}

#[test]
fn mod_test_complex_one() {
    let result = "2 + pi / 35";
    let input = "+ 2 / pi 35";
    assert_eq!(result, translate_prefix(input));
}

#[test]
fn mod_test_complex_two() {
    let result = "a + b * c / d";
    let input = "+ a * b / c d";
    assert_eq!(result, translate_prefix(input));
}

#[test]
fn mod_test_complex_three() {
    let result = "(a + b * c) / (d - f / g)";
    let input = "/ ( + a * b c ) ( - d / f g )";
    assert_eq!(result, translate_prefix(input));
}

#[test]
fn mod_test_complex_four() {
    let result = "(a + b * c / (d - f / (g * h / i)))";
    let input = "( + a * b / c ( - d / f ( * g / h i ) ) )";
    assert_eq!(result, translate_prefix(input));
}

#[test]
fn mod_test_complex_five() {
    let result = "(j + k) * (a + b * c / (d - f / (g * h / i)))";
    let input = "* ( + j k ) ( + a * b / c ( - d / f ( * g / h i ) ) )";
    assert_eq!(result, translate_prefix(input));
}

#[test]
fn mod_test_complex_six() {
    let result = "(a + b * c / (d - f / (g * h / i))) + (j + k)";
    let input = "+ ( + a * b / c ( - d / f ( * g / h i ) ) ) ( + j k )";
    assert_eq!(result, translate_prefix(input));
}

#[test]
fn test_infix_equals() {
    let result = "a = 3";
    let input = "= a 3";
    assert_eq!(result, translate_prefix(input));
}
