use prefix_calc::calculator::calculate;
use prefix_calc::calculator::convert_cell_vector_to_string;
use prefix_calc::calculator::parse_to_vec_and_map;

#[test]
fn test_simple_add() {
    let result = String::from("4.00000000");
    let input = String::from("+ 2 2");
    let vector_and_map = parse_to_vec_and_map(input.as_str());
    if vector_and_map.is_err() {
        panic!("{}", vector_and_map.err().unwrap().as_str());
    }

    let (vec, map) = vector_and_map.ok().unwrap();
    let result_cal = calculate(&vec, &map);
    if result_cal.is_ok() {
        assert_eq!(result, convert_cell_vector_to_string(&result_cal.ok().unwrap()));
    } else {
        assert_eq!(result, result_cal.err().unwrap());
    }
}

#[test]
fn test_simple_subtract() {
    let result = String::from("0.00000000");
    let input = String::from("- 2 2");
    let vector_and_map = parse_to_vec_and_map(input.as_str());
    if vector_and_map.is_err() {
        panic!("{}", vector_and_map.err().unwrap());
    }

    let (vec, map) = vector_and_map.ok().unwrap();
    let result_cal = calculate(&vec, &map);
    if result_cal.is_ok() {
        assert_eq!(result, convert_cell_vector_to_string(&result_cal.ok().unwrap()));
    } else {
        assert_eq!(result, result_cal.err().unwrap());
    }
}

#[test]
fn test_simple_multiply() {
    let result = String::from("4.00000000");
    let input = String::from("* 2 2");
    let vector_and_map = parse_to_vec_and_map(input.as_str());
    if vector_and_map.is_err() {
        panic!("{}", vector_and_map.err().unwrap());
    }

    let (vec, map) = vector_and_map.ok().unwrap();
    let result_cal = calculate(&vec, &map);
    if result_cal.is_ok() {
        assert_eq!(result, convert_cell_vector_to_string(&result_cal.ok().unwrap()));
    } else {
        assert_eq!(result, result_cal.err().unwrap());
    }
}

#[test]
fn test_simple_divide() {
    let result = String::from("1.00000000");
    let input = String::from("/ 2 2");
    let vector_and_map = parse_to_vec_and_map(input.as_str());
    if vector_and_map.is_err() {
        panic!("{}", vector_and_map.err().unwrap());
    }

    let (vec, map) = vector_and_map.ok().unwrap();
    let result_cal = calculate(&vec, &map);
    if result_cal.is_ok() {
        assert_eq!(result, convert_cell_vector_to_string(&result_cal.ok().unwrap()));
    } else {
        assert_eq!(result, result_cal.err().unwrap());
    }
}

#[test]
fn test_complex_one() {
    let result = String::from("14.00000000");
    let input = String::from("+ + 5 6 + 1 2");
    let vector_and_map = parse_to_vec_and_map(input.as_str());
    if vector_and_map.is_err() {
        panic!("{}", vector_and_map.err().unwrap());
    }

    let (vec, map) = vector_and_map.ok().unwrap();
    let result_cal = calculate(&vec, &map);
    if result_cal.is_ok() {
        assert_eq!(result, convert_cell_vector_to_string(&result_cal.ok().unwrap()));
    } else {
        assert_eq!(result, result_cal.err().unwrap());
    }
}

#[test]
fn test_complex_two() {
    let result = String::from("21.96875000");
    let input = String::from("+ ( + 1 * 2 / 3 ( - 4 / 5 ( * 6 / 7 8 ) ) ) ( + 9 10 )");
    let vector_and_map = parse_to_vec_and_map(input.as_str());
    if vector_and_map.is_err() {
        panic!("{}", vector_and_map.err().unwrap());
    }

    let (vec, map) = vector_and_map.ok().unwrap();
    let result_cal = calculate(&vec, &map);
    if result_cal.is_ok() {
        assert_eq!(result, convert_cell_vector_to_string(&result_cal.ok().unwrap()));
    } else {
        assert_eq!(result, result_cal.err().unwrap());
    }
}

#[test]
fn test_substitution_1() {
    let result = String::from("10.00000000");
    let input = String::from("+ + a b + c d");

    let vector_and_map = parse_to_vec_and_map(input.as_str());
    if vector_and_map.is_err() {
        panic!("{}", vector_and_map.err().unwrap());
    }
    let (equation, mut variables) = vector_and_map.ok().unwrap();

    let input = String::from("= a 1");
    let vector_and_map = parse_to_vec_and_map(input.as_str());
    if vector_and_map.is_err() {
        panic!("{}", vector_and_map.err().unwrap().as_str());
    } else {
        let (throw_away, var1) = vector_and_map.ok().unwrap();
        if !throw_away.is_empty() {
            panic!("Set variable. Expected equation to be empty.");
        }
        if var1.is_empty() {
            panic!("Set variable. Expected variables to have values.");
        } else {
            variables.merge_from(&var1);
        }
    }

    let input = String::from("= b 2");
    let vector_and_map = parse_to_vec_and_map(input.as_str());
    if vector_and_map.is_err() {
        panic!("{}", vector_and_map.err().unwrap().as_str());
    } else {
        let (throw_away, var1) = vector_and_map.ok().unwrap();
        if !throw_away.is_empty() {
            panic!("Set variable. Expected equation to be empty.");
        }
        if var1.is_empty() {
            panic!("Set variable. Expected variables to have values.");
        } else {
            variables.merge_from(&var1);
        }
    }

    let input = String::from("= c 3");
    let vector_and_map = parse_to_vec_and_map(input.as_str());
    if vector_and_map.is_err() {
        panic!("{}", vector_and_map.err().unwrap().as_str());
    } else {
        let (throw_away, var1) = vector_and_map.ok().unwrap();
        if !throw_away.is_empty() {
            panic!("Set variable. Expected equation to be empty.");
        }
        if var1.is_empty() {
            panic!("Set variable. Expected variables to have values.");
        } else {
            variables.merge_from(&var1);
        }
    }

    let input = String::from("= d 4");
    let vector_and_map = parse_to_vec_and_map(input.as_str());
    if vector_and_map.is_err() {
        panic!("{}", vector_and_map.err().unwrap().as_str());
    } else {
        let (throw_away, var1) = vector_and_map.ok().unwrap();
        if !throw_away.is_empty() {
            panic!("Set variable. Expected equation to be empty.");
        }
        if var1.is_empty() {
            panic!("Set variable. Expected variables to have values.");
        } else {
            variables.merge_from(&var1);
        }
    }

    let result_cal = calculate(&equation, &variables);
    assert_eq!(result, convert_cell_vector_to_string(&result_cal.ok().unwrap()));
}
