use llvm_compiler::table::Table;
use llvm_compiler::text::{
    i128_text, pad_right_exec, parse_decimal_i128, push_char, replace_char_exec, skip_chars,
    starts_with_char, str_eq, u128_text, usize_text, zero_pad_left_exec,
};

#[test]
fn decimal_text_of_integers() {
    assert_eq!(usize_text(0), "0");
    assert_eq!(usize_text(1234), "1234");
    assert_eq!(u128_text(340282366920938463463374607431768211455), "340282366920938463463374607431768211455");
    assert_eq!(i128_text(-42), "-42");
    assert_eq!(i128_text(i128::MIN), "-170141183460469231731687303715884105728");
    assert_eq!(i128_text(i128::MAX), "170141183460469231731687303715884105727");
}

#[test]
fn decimal_round_trip_on_values() {
    for v in [0i128, 7, -7, 10, -100, 123456789, i128::MIN, i128::MAX] {
        assert_eq!(parse_decimal_i128(&i128_text(v)), Some(v));
    }
}

#[test]
fn decimal_parsing_accepts_sign_and_rejects_others() {
    assert_eq!(parse_decimal_i128("+15"), Some(15));
    assert_eq!(parse_decimal_i128("-0"), Some(0));
    assert_eq!(parse_decimal_i128("007"), Some(7));
    assert_eq!(parse_decimal_i128(""), None);
    assert_eq!(parse_decimal_i128("-"), None);
    assert_eq!(parse_decimal_i128("12a"), None);
    assert_eq!(parse_decimal_i128("170141183460469231731687303715884105728"), None);
    assert_eq!(parse_decimal_i128("-170141183460469231731687303715884105729"), None);
}

#[test]
fn padding() {
    assert_eq!(pad_right_exec("ab".to_string(), 5), "ab   ");
    assert_eq!(pad_right_exec("abcdef".to_string(), 3), "abcdef");
    assert_eq!(zero_pad_left_exec("7".to_string(), 3), "007");
    assert_eq!(zero_pad_left_exec("1234".to_string(), 2), "1234");
}

#[test]
fn character_helpers() {
    let mut s = String::from("ab");
    push_char(&mut s, 'c');
    assert_eq!(s, "abc");
    assert_eq!(replace_char_exec("a-b-c", '-', '_'), "a_b_c");
    assert_eq!(skip_chars("--help", 2), "help");
    assert!(starts_with_char("-o", '-'));
    assert!(!starts_with_char("", '-'));
    assert!(str_eq("ir", "ir"));
    assert!(!str_eq("ir", "llvm"));
}

#[test]
fn table_read_after_write() {
    let mut t: Table<String, usize> = Table::new();
    t.insert("a".to_string(), 1);
    t.insert("b".to_string(), 2);
    t.insert("a".to_string(), 3);
    assert_eq!(t.get(&"a".to_string()), Some(&3));
    assert_eq!(t.get(&"b".to_string()), Some(&2));
    assert_eq!(t.len(), 2);
    assert_eq!(t.keys(), vec!["a".to_string(), "b".to_string()]);
    assert_eq!(t.remove(&"a".to_string()), Some(3));
    assert_eq!(t.get(&"a".to_string()), None);
    assert!(!t.contains_key(&"a".to_string()));
    assert!(t.contains_key(&"b".to_string()));
    assert_eq!(t.remove(&"zzz".to_string()), None);
}
