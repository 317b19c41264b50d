use erox::vm::methods::{
    contains, dispatch_bool_method, dispatch_number_method, dispatch_string_method, ends_with,
    missing_method_message, starts_with, trim, MethodValue, ValueKind,
};
use erox::vm::stdlib::{
    alnum_from_index, classify_import, create_stdlib_module, crypto_base64_dec, crypto_base64_enc,
    crypto_md5, crypto_sha256, hex_lower, is_stdlib_module, random_pick, random_range,
    random_string, ImportTarget, StdlibFn,
};

fn text(s: &str) -> Option<String> {
    Some(s.to_string())
}

#[test]
fn md5_and_sha256_in_hex() {
    assert_eq!(crypto_md5("abc"), "900150983cd24fb0d6963f7d28e17f72");
    assert_eq!(crypto_md5(""), "d41d8cd98f00b204e9800998ecf8427e");
    assert_eq!(
        crypto_sha256("abc"),
        "ba7816bf8f01cfea414140de5dae2223b00361a396177a9cb410ff61f20015ad"
    );
}

#[test]
fn hex_uses_two_lowercase_digits_per_byte() {
    assert_eq!(hex_lower(&vec![0u8, 15, 16, 171, 255]), "000f10abff");
    assert_eq!(hex_lower(&vec![]), "");
}

#[test]
fn base64_round_trip() {
    assert_eq!(crypto_base64_enc("hello"), "aGVsbG8=");
    assert_eq!(crypto_base64_enc(""), "");
    assert_eq!(crypto_base64_enc("M"), "TQ==");
    assert_eq!(crypto_base64_enc("Ma"), "TWE=");
    assert_eq!(crypto_base64_enc("Man?>"), "TWFuPz4=");
    assert_eq!(crypto_base64_dec("aGVsbG8="), Some("hello".to_string()));
    assert_eq!(crypto_base64_dec("not base64!"), None);
    assert_eq!(crypto_base64_dec(&crypto_base64_enc("ünïcode ✓")), Some("ünïcode ✓".to_string()));
    assert_eq!(crypto_base64_dec("/w=="), Some("\u{FFFD}".to_string()));
}

#[test]
fn random_values_stay_in_range() {
    for _ in 0..200 {
        let v = random_range(-3, 4);
        assert!((-3..=4).contains(&v));
    }
    assert_eq!(random_range(7, 7), 7);
    assert_eq!(random_pick(0), None);
    for _ in 0..100 {
        let i = random_pick(5).unwrap();
        assert!(i < 5);
    }
}

#[test]
fn random_strings_are_lowercase_alphanumeric() {
    let s = random_string(64);
    assert_eq!(s.chars().count(), 64);
    assert!(s.chars().all(|c| c.is_ascii_digit() || c.is_ascii_lowercase()));
    assert_eq!(random_string(0), "");
    assert_eq!(alnum_from_index(0), '0');
    assert_eq!(alnum_from_index(9), '9');
    assert_eq!(alnum_from_index(10), 'a');
    assert_eq!(alnum_from_index(35), 'z');
}

#[test]
fn stdlib_modules_list_their_functions() {
    assert_eq!(
        create_stdlib_module("crypto"),
        vec![StdlibFn::CryptoMd5, StdlibFn::CryptoSha256, StdlibFn::CryptoBase64Enc, StdlibFn::CryptoBase64Dec]
    );
    assert_eq!(create_stdlib_module("fs").len(), 5);
    assert_eq!(create_stdlib_module("json"), vec![StdlibFn::JsonToObj, StdlibFn::JsonToTxt]);
    assert_eq!(create_stdlib_module("nope"), vec![]);
    assert_eq!(StdlibFn::RandomString.qualified_name(), "random.string");
    assert_eq!(StdlibFn::CryptoBase64Dec.qualified_name(), "crypto.base64_dec");
    assert_eq!(StdlibFn::OsCpu.key(), "cpu");
    assert_eq!(StdlibFn::NetIp.module(), "net");
    for m in ["os", "fs", "json", "random", "crypto", "net"] {
        for f in create_stdlib_module(m) {
            assert_eq!(f.module(), m);
            assert_eq!(f.qualified_name(), format!("{}.{}", m, f.key()));
        }
    }
}

#[test]
fn import_paths_are_classified() {
    assert_eq!(classify_import("json"), ImportTarget::Builtin);
    assert_eq!(classify_import("lib/util.erx"), ImportTarget::Script);
    assert_eq!(classify_import(".erx"), ImportTarget::Script);
    assert_eq!(classify_import("util.rs"), ImportTarget::Unknown);
    assert!(is_stdlib_module("os"));
    assert!(!is_stdlib_module("OS"));
}

#[test]
fn string_methods() {
    let none: Vec<Option<String>> = vec![];
    assert_eq!(dispatch_string_method("héllo", "len", &none), Ok(MethodValue::Count(6)));
    assert_eq!(dispatch_string_method("MiXed", "upper", &none), Ok(MethodValue::Text("MIXED".to_string())));
    assert_eq!(dispatch_string_method("MiXed", "lower", &none), Ok(MethodValue::Text("mixed".to_string())));
    assert_eq!(dispatch_string_method("x", "type", &none), Ok(MethodValue::Text("string".to_string())));
    assert_eq!(dispatch_string_method(" \t a b \n", "trim", &none), Ok(MethodValue::Text("a b".to_string())));
    assert_eq!(
        dispatch_string_method("a b  c", "split", &none),
        Ok(MethodValue::Texts(vec!["a".to_string(), "b".to_string(), "".to_string(), "c".to_string()]))
    );
    assert_eq!(
        dispatch_string_method("a,b", "split", &vec![text(",")]),
        Ok(MethodValue::Texts(vec!["a".to_string(), "b".to_string()]))
    );
    assert_eq!(dispatch_string_method("haystack", "contains", &vec![text("st")]), Ok(MethodValue::Flag(true)));
    assert_eq!(dispatch_string_method("haystack", "contains", &vec![None]), Ok(MethodValue::Flag(false)));
    assert_eq!(dispatch_string_method("haystack", "starts_with", &vec![text("hay")]), Ok(MethodValue::Flag(true)));
    assert_eq!(dispatch_string_method("haystack", "ends_with", &vec![text("hay")]), Ok(MethodValue::Flag(false)));
    assert_eq!(
        dispatch_string_method("a-b-c", "replace", &vec![text("-"), text("+")]),
        Ok(MethodValue::Text("a+b+c".to_string()))
    );
    assert_eq!(
        dispatch_string_method("a-b-c", "replace", &vec![text("-")]),
        Ok(MethodValue::Text("a-b-c".to_string()))
    );
    assert_eq!(
        dispatch_string_method("x", "reverse", &none),
        Err("String does not have method 'reverse'".to_string())
    );
}

#[test]
fn substring_tests() {
    assert!(contains("abc", ""));
    assert!(contains("abc", "bc"));
    assert!(!contains("abc", "abcd"));
    assert!(starts_with("abc", ""));
    assert!(!starts_with("ab", "abc"));
    assert!(ends_with("abc", "c"));
    assert!(!ends_with("c", "bc"));
    assert_eq!(trim("   "), "");
    assert_eq!(trim("x"), "x");
}

#[test]
fn scalar_methods_and_type_names() {
    assert_eq!(dispatch_number_method("type"), Ok(MethodValue::Text("number".to_string())));
    assert_eq!(dispatch_number_method("len"), Err("Number does not have method 'len'".to_string()));
    assert_eq!(dispatch_bool_method("type"), Ok(MethodValue::Text("boolean".to_string())));
    assert_eq!(dispatch_bool_method("x"), Err("Boolean does not have method 'x'".to_string()));
    assert_eq!(missing_method_message("null", "f"), "null does not have method 'f'");
    assert_eq!(ValueKind::Function.name(), "function");
    assert_eq!(ValueKind::Null.name(), "null");
}

fn texts(v: &[&str]) -> Result<MethodValue, String> {
    Ok(MethodValue::Texts(v.iter().map(|s| s.to_string()).collect()))
}

#[test]
fn split_and_replace_take_matches_from_the_left() {
    let t = |s: &str| Some(s.to_string());
    assert_eq!(dispatch_string_method("aaa", "split", &vec![t("aa")]), texts(&["", "a"]));
    assert_eq!(dispatch_string_method("abc", "split", &vec![t("")]), texts(&["", "a", "b", "c", ""]));
    assert_eq!(dispatch_string_method("", "split", &vec![t("")]), texts(&["", ""]));
    assert_eq!(dispatch_string_method("", "split", &vec![t(",")]), texts(&[""]));
    assert_eq!(dispatch_string_method(",a,", "split", &vec![t(",")]), texts(&["", "a", ""]));
    assert_eq!(
        dispatch_string_method("aaa", "replace", &vec![t("aa"), t("b")]),
        Ok(MethodValue::Text("ba".to_string()))
    );
    assert_eq!(
        dispatch_string_method("abc", "replace", &vec![t(""), t("-")]),
        Ok(MethodValue::Text("-a-b-c-".to_string()))
    );
    assert_eq!(
        dispatch_string_method("", "replace", &vec![t(""), t("-")]),
        Ok(MethodValue::Text("-".to_string()))
    );
}

#[test]
fn trim_removes_exactly_the_unicode_whitespace() {
    for code in 0u32..0x110000 {
        if let Some(c) = char::from_u32(code) {
            let s = c.to_string();
            assert_eq!(trim(&s).is_empty(), c.is_whitespace(), "code point {:x}", code);
        }
    }
}
