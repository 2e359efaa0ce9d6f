use unityassetdb::double::Double;
use unityassetdb::paths::{find_last_slash, normalize, split_components};
use unityassetdb::text::{
    chars_of, copy_optional, decimal, decimal_one_place, join_texts, same_text, signed_decimal, text_of,
};

#[test]
fn numerals() {
    assert_eq!(decimal(0), "0");
    assert_eq!(decimal(1234567890), "1234567890");
    assert_eq!(decimal(u128::MAX), u128::MAX.to_string());
    assert_eq!(signed_decimal(-7), "-7");
    assert_eq!(signed_decimal(i64::MIN), i64::MIN.to_string());
    assert_eq!(signed_decimal(i64::MAX), i64::MAX.to_string());
    assert_eq!(decimal_one_place(5), "0.5");
    assert_eq!(decimal_one_place(1234), "123.4");
}

#[test]
fn comparison_of_texts() {
    assert!(same_text("é", "é"));
    assert!(!same_text("a", "ab"));
    assert!(!same_text("ab", "aé"));
    assert_eq!(copy_optional(&Some("a".to_string())), Some("a".to_string()));
    assert_eq!(copy_optional(&None), None);
}

#[test]
fn pieces_of_texts() {
    let chars = chars_of("a·b");
    assert_eq!(chars, vec!['a', '·', 'b']);
    assert_eq!(text_of(&chars, 1, 3), "·b");
    assert_eq!(join_texts("a", "b"), "ab");
}

#[test]
fn pieces_of_paths() {
    let path = normalize("a\\b/c");
    assert_eq!(path, vec!['a', '/', 'b', '/', 'c']);
    assert_eq!(find_last_slash(&path), Some(3));
    assert_eq!(find_last_slash(&normalize("abc")), None);
    assert_eq!(split_components(&path, 3), vec!["a".to_string(), "b".to_string()]);
    assert_eq!(split_components(&normalize("//a//b/"), 6), vec!["a".to_string(), "b".to_string()]);
}

#[test]
fn doubles_agree_with_floating_point() {
    let mut x: u64 = 0x9E3779B97F4A7C15;
    for i in 0..20000u32 {
        x ^= x << 13;
        x ^= x >> 7;
        x ^= x << 17;
        let a = x >> (i % 63);
        x ^= x << 13;
        x ^= x >> 7;
        x ^= x << 17;
        let b = (x >> (i % 61)) | 1;
        let q = Double::of_u64(a).divide(Double::of_u64(b));
        assert_eq!(q.to_u64(), (a as f64 / b as f64) as u64);
        assert_eq!(q.round_to_u64(), (a as f64 / b as f64).round() as u64);
        let p = q.multiply(Double::of_u64(24));
        assert_eq!(p.round_to_u64(), (a as f64 / b as f64 * 24.0).round() as u64);
    }
}
