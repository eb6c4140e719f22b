use rox::number::{
    number_is_nan, number_less, number_less_or_equal, number_negated, numbers_equal,
};
use rox::text::{characters, push_decimal, spells, text_of};
use rox::value::{clone_slot, Value};

fn shown(bits: u64) -> String {
    f64::from_bits(bits).to_string()
}

fn samples() -> Vec<f64> {
    vec![
        0.0,
        -0.0,
        1.0,
        -1.0,
        0.5,
        -0.5,
        2.0,
        1e308,
        -1e308,
        5e-324,
        -5e-324,
        f64::MIN_POSITIVE,
        f64::MAX,
        f64::MIN,
        f64::INFINITY,
        f64::NEG_INFINITY,
        f64::NAN,
        -f64::NAN,
        f64::EPSILON,
        123456.789,
    ]
}

#[test]
fn comparison_on_bits_is_comparison_of_numbers() {
    for a in samples() {
        for b in samples() {
            let (x, y) = (a.to_bits(), b.to_bits());
            assert_eq!(numbers_equal(x, y), a == b, "{} == {}", a, b);
            assert_eq!(number_less(x, y), a < b, "{} < {}", a, b);
            assert_eq!(number_less_or_equal(x, y), a <= b, "{} <= {}", a, b);
        }
    }
}

#[test]
fn negation_on_bits_is_negation_of_numbers() {
    for a in samples() {
        assert_eq!(number_negated(a.to_bits()), (-a).to_bits(), "-{}", a);
    }
}

#[test]
fn not_a_number_is_told_by_its_bits() {
    for a in samples() {
        assert_eq!(number_is_nan(a.to_bits()), a.is_nan(), "{}", a);
    }
    assert!(number_is_nan(0x7ff0_0000_0000_0001));
    assert!(number_is_nan(0xffff_ffff_ffff_ffff));
    assert!(!number_is_nan(0x7ff0_0000_0000_0000));
    assert!(!number_is_nan(0xfff0_0000_0000_0000));
}

#[test]
fn values_of_different_kinds_are_never_equal() {
    let values = vec![
        Value::String("1".to_string()),
        Value::Double(1.0f64.to_bits()),
        Value::Bool(true),
        Value::Nil,
    ];
    for (i, a) in values.iter().enumerate() {
        for (j, b) in values.iter().enumerate() {
            assert_eq!(a.equals(b), i == j);
        }
    }
}

#[test]
fn values_of_one_kind_are_equal_by_content() {
    assert!(Value::String("ab".to_string()).equals(&Value::String("ab".to_string())));
    assert!(!Value::String("ab".to_string()).equals(&Value::String("ac".to_string())));
    assert!(!Value::String("ab".to_string()).equals(&Value::String("abc".to_string())));
    assert!(Value::Bool(false).equals(&Value::Bool(false)));
    assert!(!Value::Bool(false).equals(&Value::Bool(true)));
    assert!(Value::Double(0.0f64.to_bits()).equals(&Value::Double((-0.0f64).to_bits())));
    assert!(!Value::Double(f64::NAN.to_bits()).equals(&Value::Double(f64::NAN.to_bits())));
    assert!(!Value::Double(1.0f64.to_bits()).equals(&Value::Double(2.0f64.to_bits())));
}

#[test]
fn values_display_as_in_source() {
    assert_eq!(
        Value::String("hi".to_string()).to_display_string(&shown),
        "\"hi\""
    );
    assert_eq!(Value::String(String::new()).to_display_string(&shown), "\"\"");
    assert_eq!(Value::Double(2.5f64.to_bits()).to_display_string(&shown), "2.5");
    assert_eq!(Value::Double(3.0f64.to_bits()).to_display_string(&shown), "3");
    assert_eq!(Value::Bool(true).to_display_string(&shown), "true");
    assert_eq!(Value::Bool(false).to_display_string(&shown), "false");
    assert_eq!(Value::Nil.to_display_string(&shown), "nil");
}

#[test]
fn values_print_without_quotes() {
    assert_eq!(Value::String("hi".to_string()).to_runtime_string(&shown), "hi");
    assert_eq!(Value::Double(2.5f64.to_bits()).to_runtime_string(&shown), "2.5");
    assert_eq!(Value::Bool(true).to_runtime_string(&shown), "true");
    assert_eq!(Value::Bool(false).to_runtime_string(&shown), "false");
    assert_eq!(Value::Nil.to_runtime_string(&shown), "nil");
}

#[test]
fn a_number_prints_as_the_caller_shows_it() {
    let tagged = |bits: u64| format!("<{}>", bits);
    assert_eq!(Value::Double(7).to_runtime_string(&tagged), "<7>");
    assert_eq!(Value::Double(7).to_display_string(&tagged), "<7>");
}

#[test]
fn a_copy_of_a_value_is_the_same_value() {
    let values = vec![
        Value::String("abc".to_string()),
        Value::Double(1.5f64.to_bits()),
        Value::Bool(true),
        Value::Nil,
    ];
    for value in values {
        assert_eq!(value.clone(), value);
        assert_eq!(clone_slot(&Some(value.clone())), Some(value));
    }
    assert_eq!(clone_slot(&None), None);
}

#[test]
fn text_is_read_character_by_character() {
    assert_eq!(characters("aé\n"), vec!['a', 'é', '\n']);
    assert_eq!(characters(""), Vec::<char>::new());
    let source = characters("print xé;");
    assert_eq!(text_of(&source, 6, 8), "xé");
    assert_eq!(text_of(&source, 3, 3), "");
    assert!(spells(&source, 0, 5, "print"));
    assert!(!spells(&source, 0, 4, "print"));
    assert!(!spells(&source, 1, 6, "print"));
    assert!(spells(&source, 2, 2, ""));
}

#[test]
fn a_count_is_written_in_decimal() {
    for (count, expected) in [
        (0usize, "n0"),
        (9, "n9"),
        (10, "n10"),
        (99, "n99"),
        (100, "n100"),
        (12345, "n12345"),
        (4294967295, "n4294967295"),
    ] {
        let mut text = "n".to_string();
        push_decimal(&mut text, count);
        assert_eq!(text, expected);
    }
}

#[test]
fn values_compare_as_the_language_compares_them() {
    let nan = Value::Double(f64::NAN.to_bits());
    assert!(nan != nan.clone());
    assert!(Value::Double(0.0f64.to_bits()) == Value::Double((-0.0f64).to_bits()));
    assert!(Value::Double(1.0f64.to_bits()) == Value::Double(1.0f64.to_bits()));
    assert!(Value::Double(1.0f64.to_bits()) != Value::Double(1.5f64.to_bits()));
    assert!(Value::String("a".to_string()) == Value::String("a".to_string()));
    assert!(Value::String("a".to_string()) != Value::String("b".to_string()));
    assert!(Value::Nil == Value::Nil);
    assert!(Value::Nil != Value::Bool(false));
    assert!(Value::Bool(true) != Value::Double(1.0f64.to_bits()));
}
