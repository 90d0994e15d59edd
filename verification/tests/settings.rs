use wgsl_gpu::args::ArgError;
use wgsl_gpu::arguments::{ArgumentsAttributes, ArgumentsFieldAttributes, SpirvAttr};
use wgsl_gpu::entry::{merge, BindGroupAttributes, EntryAttributes, FieldAttributes};
use wgsl_gpu::errors::MacroError;
use wgsl_gpu::syntax::{Arg, Attribute, Value};
use wgsl_gpu::text::{parse_unsigned_text, IntParseFailure};

fn flag(n: &str) -> Arg {
    Arg::Flag(n.to_string())
}

fn int_arg(n: &str, v: &str) -> Arg {
    Arg::Expr(n.to_string(), Value::Int(v.to_string()))
}

fn text(n: &str, v: &str) -> Arg {
    Arg::Expr(n.to_string(), Value::Str(v.to_string()))
}

fn attr(name: &str, args: Vec<Arg>) -> Attribute {
    Attribute { ident: Some(name.to_string()), args: Ok(args) }
}

#[test]
fn parses_decimal_text() {
    assert_eq!(parse_unsigned_text("42", u32::MAX as u64), Ok(42));
    assert_eq!(parse_unsigned_text("+7", u32::MAX as u64), Ok(7));
    assert_eq!(parse_unsigned_text("4294967295", u32::MAX as u64), Ok(4294967295));
    assert_eq!(parse_unsigned_text("0007", 9), Ok(7));
}

#[test]
fn reports_each_parse_failure() {
    assert_eq!(parse_unsigned_text("", 100), Err(IntParseFailure::Empty));
    assert_eq!(parse_unsigned_text("+", 100), Err(IntParseFailure::InvalidDigit));
    assert_eq!(parse_unsigned_text("-1", 100), Err(IntParseFailure::InvalidDigit));
    assert_eq!(parse_unsigned_text("12a", 100), Err(IntParseFailure::InvalidDigit));
    assert_eq!(parse_unsigned_text("4294967296", u32::MAX as u64), Err(IntParseFailure::PosOverflow));
    // overflow is met before the bad digit that follows it
    assert_eq!(parse_unsigned_text("999x", 100), Err(IntParseFailure::PosOverflow));
    assert_eq!(IntParseFailure::PosOverflow.message(), "number too large to fit in target type");
}

#[test]
fn reads_field_location_and_builtins() {
    let a = ArgumentsFieldAttributes::from_args(&vec![int_arg("location", "3")]).ok().unwrap();
    assert_eq!(a.location, Some(3));
    assert_eq!(a.output, None);
    let b = ArgumentsFieldAttributes::from_args(&vec![text("output", "position"), text("input", "frag_coord")])
        .ok()
        .unwrap();
    assert_eq!(b.location, None);
    assert_eq!(b.output.as_deref(), Some("position"));
    assert_eq!(b.input.as_deref(), Some("frag_coord"));
}

#[test]
fn unknown_field_argument_is_reported_with_suggestion() {
    let errors = match ArgumentsFieldAttributes::from_args(&vec![flag("position")]) {
        Err(e) => e,
        Ok(_) => panic!("an unknown argument must be refused"),
    };
    assert_eq!(errors.len(), 1);
    match &errors[0] {
        ArgError::UnknownArgument { key, suggestion } => {
            assert_eq!(key, "position");
            assert_eq!(suggestion.as_deref(), Some("location"));
        }
        _ => panic!("expected an unknown argument"),
    }
    match &ArgumentsFieldAttributes::from_args(&vec![flag("zzzzzzzzzz")]).err().unwrap()[0] {
        ArgError::UnknownArgument { suggestion, .. } => assert_eq!(*suggestion, None),
        _ => panic!("expected an unknown argument"),
    }
}

#[test]
fn wrong_value_kinds_are_reported_in_setting_order() {
    let errors = ArgumentsFieldAttributes::from_args(&vec![
        text("input", "a"),
        Arg::Expr("output".to_string(), Value::Other),
        text("location", "x"),
        flag("extra"),
    ])
    .err()
    .unwrap();
    assert_eq!(errors.len(), 3);
    assert!(matches!(errors[0], ArgError::ExpectedInteger));
    assert!(matches!(errors[1], ArgError::ExpectedString));
    assert!(matches!(errors[2], ArgError::UnknownArgument { .. }));
    let too_big = ArgumentsFieldAttributes::from_args(&vec![int_arg("location", "99999999999")]).err().unwrap();
    assert!(matches!(too_big[0], ArgError::InvalidInteger(IntParseFailure::PosOverflow)));
}

#[test]
fn first_argument_of_a_name_counts() {
    let a = ArgumentsFieldAttributes::from_args(&vec![int_arg("location", "1"), int_arg("location", "2")]).ok().unwrap();
    assert_eq!(a.location, Some(1));
}

#[test]
fn struct_attributes_from_all_struct_attributes() {
    let attrs = vec![
        attr("repr", vec![flag("C")]),
        attr("wgsl_gpu", vec![]),
        attr("wgsl_gpu", vec![flag("attributes")]),
    ];
    assert!(ArgumentsAttributes::from_input(&attrs).ok().unwrap().attributes);
    assert!(!ArgumentsAttributes::from_input(&vec![]).ok().unwrap().attributes);
    let bad = vec![Attribute { ident: Some("wgsl_gpu".to_string()), args: Err("expected `,`".to_string()) }];
    match ArgumentsAttributes::from_input(&bad) {
        Err(MacroError::Syntax(m)) => assert_eq!(m, "expected `,`"),
        _ => panic!("expected a syntax error"),
    }
}

#[test]
fn input_and_output_attributes() {
    let located = ArgumentsFieldAttributes { location: Some(4), output: Some("position".to_string()), input: None };
    assert!(matches!(located.input_attribute(), Ok(SpirvAttr::Location(4))));
    assert!(matches!(located.output_attribute(), Ok(SpirvAttr::Location(4))));
    let builtin = ArgumentsFieldAttributes { location: None, output: Some("position".to_string()), input: None };
    match builtin.output_attribute() {
        Ok(SpirvAttr::Builtin(b)) => assert_eq!(b, "position"),
        _ => panic!("expected the output builtin"),
    }
    let e = builtin.input_attribute().err().unwrap();
    assert!(matches!(e, MacroError::ExpectedLocationOrInput));
    assert_eq!(e.message(), Some("Expected location or input attribute"));
    let none = ArgumentsFieldAttributes { location: None, output: None, input: None };
    assert!(matches!(none.output_attribute(), Err(MacroError::ExpectedLocationOrOutput)));
}

#[test]
fn entry_and_parameter_settings() {
    let e = EntryAttributes::from_args(&vec![flag("vertex")]).ok().unwrap();
    assert!(e.vertex && !e.fragment);
    assert!(EntryAttributes::from_args(&vec![flag("compute")]).is_err());
    let p = FieldAttributes::from_args(&vec![flag("arguments"), text("step_mode", "instance")]).ok().unwrap();
    assert!(p.arguments);
    assert_eq!(p.step_mode.as_deref(), Some("instance"));
    let b = BindGroupAttributes::from_args(&vec![int_arg("descriptor_set", "1"), flag("uniform")]).ok().unwrap();
    assert_eq!((b.descriptor_set, b.binding, b.uniform), (1, 0, true));
    assert!(BindGroupAttributes::from_args(&vec![flag("vertex_index")]).is_err());
}

#[test]
fn merge_lets_later_arguments_win() {
    let merged = merge(&vec![int_arg("binding", "1"), flag("uniform")], &vec![int_arg("binding", "2")]);
    assert_eq!(merged.len(), 2);
    match (&merged[0], &merged[1]) {
        (Arg::Flag(u), Arg::Expr(b, Value::Int(v))) => {
            assert_eq!(u, "uniform");
            assert_eq!(b, "binding");
            assert_eq!(v, "2");
        }
        _ => panic!("unexpected merge"),
    }
}
