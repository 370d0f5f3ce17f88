use prefix_calc::prefix::translate_infix;

#[test]
fn prefix_test_simple_add() {
    let result = "+ 2 2";
    let input = "2 + 2";
    assert_eq!(result, translate_infix(input));
}

#[test]
fn prefix_test_simple_subtract() {
    let result = "- 2 2";
    let input = "2 - 2";
    assert_eq!(result, translate_infix(input));
}

#[test]
fn prefix_test_simple_multiply() {
    let result = "* 2 2";
    let input = "2 * 2";
    assert_eq!(result, translate_infix(input));
}

#[test]
fn prefix_test_simple_divide() {
    let result = "/ 2 2";
    let input = "2 / 2";
    assert_eq!(result, translate_infix(input));
}

#[test]
fn prefix_test_complex_one() {
    let input = "2 + pi / 35";
    let result = "+ 2 / pi 35";
    assert_eq!(result, translate_infix(input));
}

#[test]
fn prefix_test_complex_two() {
    let input = "a + b * c / d";
    let result = "+ a * b / c d";
    assert_eq!(result, translate_infix(input));
}

#[test]
fn prefix_test_complex_three() {
    let input = "(a + b * c) / (d - f / g)";
    let result = "/ ( + a * b c ) ( - d / f g )";
    assert_eq!(result, translate_infix(input));
}

#[test]
fn prefix_test_complex_four() {
    let input = "(a + b * c / (d - f / (g * h / i)))";
    let result = "( + a * b / c ( - d / f ( * g / h i ) ) )";
    assert_eq!(result, translate_infix(input));
}

#[test]
fn prefix_test_complex_five() {
    let input = "(j + k) * (a + b * c / (d - f / (g * h / i)))";
    let result = "* ( + j k ) ( + a * b / c ( - d / f ( * g / h i ) ) )";
    assert_eq!(result, translate_infix(input));
}

#[test]
fn prefix_test_complex_six() {
    let input = "(a + b * c / (d - f / (g * h / i))) + (j + k)";
    let result = "+ ( + a * b / c ( - d / f ( * g / h i ) ) ) ( + j k )";
    assert_eq!(result, translate_infix(input));
}

#[test]
fn test_prefix_equals() {
    let input = "a = 3";
    let result = "= a 3";
    assert_eq!(result, translate_infix(input));
}

#[test]
fn test_prefix_equals_negative() {
    let input = "a = -3";
    let result = "= a -3";
    assert_eq!(result, translate_infix(input));
}

#[test]
fn test_prefix_equals_negative_2() {
    let input = "(a + b * c / (d - f / (g * h / -i))) + (j + k)";
    let result = "+ ( + a * b / c ( - d / f ( * g / h -i ) ) ) ( + j k )";
    assert_eq!(result, translate_infix(input));
}
