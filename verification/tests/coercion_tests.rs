use tiny_console::coercion::{
    parse_argv, parse_method_dict, parse_lowered_arg, parse_single_arg, parse_vector_arg, variant_type_name,
    ArgError, ArgInfo, MethodInfo, Value, TYPE_NIL, TYPE_STRING,
};
use tiny_console::numbers::{count_to_string, int_to_string, is_float_text};

const TYPE_BOOL: i32 = 1;
const TYPE_INT: i32 = 2;
const TYPE_FLOAT: i32 = 3;
const TYPE_VECTOR3: i32 = 9;

fn strings(items: &[&str]) -> Vec<String> {
    items.iter().map(|s| s.to_string()).collect()
}

fn signature(types: &[i32], default_count: usize) -> Option<MethodInfo> {
    Some(MethodInfo {
        args: types
            .iter()
            .enumerate()
            .map(|(i, t)| ArgInfo { name: format!("p{}", i), type_id: *t })
            .collect(),
        default_count,
        defaults: (0..default_count).map(|i| format!("d{}", i)).collect(),
    })
}

fn float_of(value: &Value) -> f64 {
    match value {
        Value::Float(text) => text.parse::<f64>().unwrap(),
        other => panic!("not a float: {:?}", other),
    }
}

fn vector_of(value: &Value) -> Vec<f32> {
    match value {
        Value::Vector(components) => {
            components.iter().map(|c| c.parse::<f32>().unwrap()).collect()
        }
        other => panic!("not a vector: {:?}", other),
    }
}

#[test]
fn coerces_bool_float_and_vector() {
    let argv = strings(&["cmd", "true", "3.5", "(1,2,3)"]);
    let info = signature(&[TYPE_BOOL, TYPE_FLOAT, TYPE_VECTOR3], 0);
    let args = parse_argv(&argv, 0, &info).unwrap();
    assert_eq!(args.len(), 3);
    assert_eq!(args[0], Value::Bool(true));
    assert_eq!(float_of(&args[1]), 3.5);
    assert_eq!(vector_of(&args[2]), vec![1.0f32, 2.0, 3.0]);
    assert_eq!(args[1], Value::Float("3.5".to_string()));
    assert_eq!(args[2], Value::Vector(strings(&["1", "2", "3"])));
}

#[test]
fn too_many_arguments_is_an_arity_error() {
    let argv = strings(&["cmd", "1", "2", "3", "4"]);
    let info = signature(&[TYPE_BOOL, TYPE_FLOAT, TYPE_VECTOR3], 0);
    assert_eq!(parse_argv(&argv, 0, &info), Err(ArgError::TooManyArguments));
}

#[test]
fn missing_arguments_is_an_arity_error() {
    let argv = strings(&["cmd", "true"]);
    let info = signature(&[TYPE_BOOL, TYPE_FLOAT, TYPE_VECTOR3], 0);
    assert_eq!(parse_argv(&argv, 0, &info), Err(ArgError::MissingArguments));
}

#[test]
fn parameters_with_defaults_may_be_left_out() {
    let info = signature(&[TYPE_INT, TYPE_INT, TYPE_INT], 2);
    assert_eq!(parse_argv(&strings(&["cmd", "1"]), 0, &info), Ok(vec![Value::Int(1)]));
    assert_eq!(
        parse_argv(&strings(&["cmd", "1", "2", "3"]), 0, &info),
        Ok(vec![Value::Int(1), Value::Int(2), Value::Int(3)])
    );
    assert_eq!(parse_argv(&strings(&["cmd"]), 0, &info), Err(ArgError::MissingArguments));
}

#[test]
fn bound_arguments_count_as_given() {
    let info = signature(&[TYPE_INT, TYPE_INT, TYPE_INT], 0);
    assert_eq!(
        parse_argv(&strings(&["cmd", "1", "2"]), 1, &info),
        Ok(vec![Value::Int(1), Value::Int(2)])
    );
    assert_eq!(
        parse_argv(&strings(&["cmd", "1", "2", "3"]), 1, &info),
        Err(ArgError::TooManyArguments)
    );
}

#[test]
fn single_text_parameter_takes_the_whole_line() {
    let info = signature(&[TYPE_STRING], 0);
    assert_eq!(
        parse_argv(&strings(&["echo", "hello", "world"]), 0, &info),
        Ok(vec![Value::Str("hello world".to_string())])
    );
    assert_eq!(
        parse_argv(&strings(&["echo", "\"hello", "world\""]), 0, &info),
        Ok(vec![Value::Str("hello world".to_string())])
    );
    assert_eq!(
        parse_argv(&strings(&["echo"]), 0, &info),
        Ok(vec![Value::Str(String::new())])
    );
    assert_eq!(
        parse_argv(&strings(&["echo", "1", "2"]), 0, &info),
        Ok(vec![Value::Str("1 2".to_string())])
    );
}

#[test]
fn without_signature_arguments_pass_as_text() {
    assert_eq!(
        parse_argv(&strings(&["cmd", "1", "\"q\"", "true"]), 0, &None),
        Ok(vec![
            Value::Str("1".to_string()),
            Value::Str("\"q\"".to_string()),
            Value::Str("true".to_string())
        ])
    );
}

#[test]
fn first_rejected_argument_gives_the_error() {
    let info = signature(&[TYPE_NIL, TYPE_NIL, TYPE_NIL], 0);
    assert_eq!(
        parse_argv(&strings(&["cmd", "1", "(1,x)", "(1)"]), 0, &info),
        Err(ArgError::BadFormatting("(1,x)".to_string()))
    );
}

#[test]
fn integers() {
    assert_eq!(parse_single_arg("42", TYPE_NIL), Ok(Value::Int(42)));
    assert_eq!(parse_single_arg("-7", TYPE_NIL), Ok(Value::Int(-7)));
    assert_eq!(parse_single_arg("+5", TYPE_NIL), Ok(Value::Int(5)));
    assert_eq!(parse_single_arg("007", TYPE_NIL), Ok(Value::Int(7)));
    assert_eq!(
        parse_single_arg("9223372036854775807", TYPE_NIL),
        Ok(Value::Int(i64::MAX))
    );
    assert_eq!(
        parse_single_arg("-9223372036854775808", TYPE_NIL),
        Ok(Value::Int(i64::MIN))
    );
}

#[test]
fn integer_too_large_becomes_float() {
    let value = parse_single_arg("9223372036854775808", TYPE_NIL).unwrap();
    assert_eq!(value, Value::Float("9223372036854775808".to_string()));
    assert_eq!(float_of(&value), 9223372036854775808.0);
}

#[test]
fn floats() {
    for text in ["3.5", "1e5", "1E5", ".5", "5.", "-0.25", "+1.5e-3", "inf", "-Infinity", "NaN"] {
        let value = parse_single_arg(text, TYPE_NIL).unwrap();
        assert_eq!(value, Value::Float(text.to_string()), "{}", text);
        assert!(text.parse::<f64>().is_ok(), "{}", text);
    }
    assert_eq!(float_of(&parse_single_arg("1e5", TYPE_NIL).unwrap()), 100000.0);
}

#[test]
fn float_grammar_agrees_with_the_standard_parser() {
    let samples = [
        "", "+", "-", ".", "e", "e5", "1e", "1e+", "1e-5", "1.e5", ".e5", "1..2", "1.2.3", "--1",
        "+-1", "1_000", " 1", "1 ", "0x10", "inf", "INF", "iNf", "infinity", "InFiNiTy", "infinit",
        "infinityy", "nan", "NAN", "+nan", "-nan", "nane", "in", "1", "12.", ".12", "12.34",
        "12.34e56", "12.34E+56", "12.34e-", "12e3.4", "٣", "１２", "1f", "1e5e5", "+.5", "-.e1",
        "+inf", "++inf",
    ];
    for text in samples {
        assert_eq!(is_float_text(text), text.parse::<f64>().is_ok(), "{:?}", text);
    }
}

#[test]
fn hexadecimal() {
    assert_eq!(parse_single_arg("0x1F", TYPE_NIL), Ok(Value::Int(31)));
    assert_eq!(parse_single_arg("0X10", TYPE_NIL), Ok(Value::Int(16)));
    assert_eq!(parse_single_arg("0xff", TYPE_NIL), Ok(Value::Int(255)));
    assert_eq!(parse_single_arg("0x-1f", TYPE_NIL), Ok(Value::Int(-31)));
    assert_eq!(
        parse_single_arg("0x7fffffffffffffff", TYPE_NIL),
        Ok(Value::Int(i64::MAX))
    );
    assert_eq!(
        parse_single_arg("0x8000000000000000", TYPE_NIL),
        Ok(Value::Str("0x8000000000000000".to_string()))
    );
    assert_eq!(parse_single_arg("0xZZ", TYPE_NIL), Ok(Value::Str("0xZZ".to_string())));
    assert_eq!(parse_single_arg("0x", TYPE_NIL), Ok(Value::Str("0x".to_string())));
}

#[test]
fn booleans_in_any_case() {
    assert_eq!(parse_single_arg("true", TYPE_NIL), Ok(Value::Bool(true)));
    assert_eq!(parse_single_arg("YES", TYPE_NIL), Ok(Value::Bool(true)));
    assert_eq!(parse_single_arg("False", TYPE_NIL), Ok(Value::Bool(false)));
    assert_eq!(parse_single_arg("no", TYPE_NIL), Ok(Value::Bool(false)));
    assert_eq!(parse_single_arg("nope", TYPE_NIL), Ok(Value::Str("nope".to_string())));
}

#[test]
fn lowered_form_decides_booleans() {
    assert_eq!(parse_lowered_arg("TRUE", "true", TYPE_NIL), Ok(Value::Bool(true)));
    assert_eq!(parse_lowered_arg("TRUE", "TRUE", TYPE_NIL), Ok(Value::Str("TRUE".to_string())));
}

#[test]
fn text_loses_one_pair_of_quotes() {
    assert_eq!(parse_single_arg("\"quoted\"", TYPE_NIL), Ok(Value::Str("quoted".to_string())));
    assert_eq!(
        parse_single_arg("\"\"twice\"\"", TYPE_NIL),
        Ok(Value::Str("\"twice\"".to_string()))
    );
    assert_eq!(parse_single_arg("\"", TYPE_NIL), Ok(Value::Str("\"".to_string())));
    assert_eq!(parse_single_arg("\"\"", TYPE_NIL), Ok(Value::Str(String::new())));
    assert_eq!(parse_single_arg("hello", TYPE_NIL), Ok(Value::Str("hello".to_string())));
}

#[test]
fn text_parameter_takes_anything_as_text() {
    assert_eq!(parse_single_arg("42", TYPE_STRING), Ok(Value::Str("42".to_string())));
    assert_eq!(parse_single_arg("true", TYPE_STRING), Ok(Value::Str("true".to_string())));
    assert_eq!(parse_single_arg("(1,2)", TYPE_STRING), Ok(Value::Str("(1,2)".to_string())));
    assert_eq!(parse_single_arg("\"a b\"", TYPE_STRING), Ok(Value::Str("a b".to_string())));
}

#[test]
fn vectors_of_two_three_and_four() {
    assert_eq!(parse_vector_arg("(1,2)"), Ok(Value::Vector(strings(&["1", "2"]))));
    assert_eq!(parse_vector_arg("(1, 2,3)"), Ok(Value::Vector(strings(&["1", "2", "3"]))));
    assert_eq!(
        parse_vector_arg("(1.5 -2 .25 4.)"),
        Ok(Value::Vector(strings(&["1.5", "-2", ".25", "4."])))
    );
    assert_eq!(vector_of(&parse_vector_arg("(1.5 -2 .25 4.)").unwrap()), vec![1.5f32, -2.0, 0.25, 4.0]);
}

#[test]
fn empty_component_before_comma_is_zero() {
    assert_eq!(parse_vector_arg("(,,)"), Ok(Value::Vector(strings(&["0", "0"]))));
    assert_eq!(parse_vector_arg("(1,,2)"), Ok(Value::Vector(strings(&["1", "0", "2"]))));
    assert_eq!(parse_vector_arg("(1, 2)"), Ok(Value::Vector(strings(&["1", "2"]))));
}

#[test]
fn vector_errors() {
    assert_eq!(parse_vector_arg("()"), Err(ArgError::UnsupportedArity(0)));
    assert_eq!(parse_vector_arg("(1)"), Err(ArgError::UnsupportedArity(1)));
    assert_eq!(parse_vector_arg("(1,2,3,4,5)"), Err(ArgError::UnsupportedArity(5)));
    assert_eq!(parse_vector_arg("(1,a)"), Err(ArgError::BadFormatting("(1,a)".to_string())));
    assert_eq!(parse_vector_arg("(1,-)"), Err(ArgError::NotANumber("-".to_string())));
    assert_eq!(parse_vector_arg("(1.2.3,4)"), Err(ArgError::NotANumber("1.2.3".to_string())));
    assert_eq!(parse_vector_arg("(1,2-3)"), Err(ArgError::NotANumber("2-3".to_string())));
}

#[test]
fn bracketed_argument_is_read_as_vector() {
    assert_eq!(parse_single_arg("(1,2)", TYPE_NIL), Ok(Value::Vector(strings(&["1", "2"]))));
    assert_eq!(parse_single_arg("(x)", TYPE_NIL), Err(ArgError::BadFormatting("(x)".to_string())));
    assert_eq!(parse_single_arg("(", TYPE_NIL), Ok(Value::Str("(".to_string())));
    assert_eq!(parse_single_arg("(1,2", TYPE_NIL), Ok(Value::Str("(1,2".to_string())));
}

#[test]
fn error_messages() {
    assert_eq!(ArgError::MissingArguments.message(), "Missing arguments.");
    assert_eq!(ArgError::TooManyArguments.message(), "Too many arguments.");
    assert_eq!(
        ArgError::NotANumber("1.2.3".to_string()).message(),
        "Failed to parse vector: Not a number: \"1.2.3\""
    );
    assert_eq!(
        ArgError::BadFormatting("(1,a)".to_string()).message(),
        "Failed to parse vector: Bad formatting: \"(1,a)\""
    );
    assert_eq!(
        ArgError::UnsupportedArity(5).message(),
        "Supports 2,3,4-element vectors, but 5-element given."
    );
}

#[test]
fn integers_are_written_in_decimal() {
    assert_eq!(int_to_string(0), "0");
    assert_eq!(int_to_string(7), "7");
    assert_eq!(int_to_string(-120), "-120");
    assert_eq!(int_to_string(i64::MAX), "9223372036854775807");
    assert_eq!(int_to_string(i64::MIN), "-9223372036854775808");
    assert_eq!(count_to_string(0), "0");
    assert_eq!(count_to_string(1005), "1005");
}

#[test]
fn type_names() {
    assert_eq!(variant_type_name(0), "Variant");
    assert_eq!(variant_type_name(1), "bool");
    assert_eq!(variant_type_name(2), "int");
    assert_eq!(variant_type_name(3), "float");
    assert_eq!(variant_type_name(4), "String");
    assert_eq!(variant_type_name(5), "Vector2");
    assert_eq!(variant_type_name(9), "Vector3");
    assert_eq!(variant_type_name(12), "Vector4");
    assert_eq!(variant_type_name(7), "Variant");
    assert_eq!(variant_type_name(-1), "Variant");
}

#[test]
fn signature_from_method_description() {
    let info = parse_method_dict(
        vec![
            ArgInfo { name: "p_item".to_string(), type_id: 4 },
            ArgInfo { name: "count".to_string(), type_id: 2 },
            ArgInfo { name: "p_p_x".to_string(), type_id: 0 },
        ],
        strings(&["1", "nil"]),
    );
    assert_eq!(info.args.len(), 3);
    assert_eq!(info.args[0], ArgInfo { name: "item".to_string(), type_id: 4 });
    assert_eq!(info.args[1], ArgInfo { name: "count".to_string(), type_id: 2 });
    assert_eq!(info.args[2], ArgInfo { name: "x".to_string(), type_id: 0 });
    assert_eq!(info.default_count, 2);
    assert_eq!(info.defaults, strings(&["1", "nil"]));
}
