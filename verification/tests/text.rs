use codefinder::store::slugify;
use codefinder::text::{is_alphanumeric, is_uppercase, is_whitespace, trim};

#[test]
fn whitespace_agrees_with_std_on_every_char() {
    for c in (0u32..=0x10FFFF).filter_map(char::from_u32) {
        assert_eq!(is_whitespace(c), c.is_whitespace(), "{:?}", c);
    }
}

#[test]
fn alphanumeric_agrees_with_std_on_every_char() {
    for c in (0u32..=0x10FFFF).filter_map(char::from_u32) {
        assert_eq!(is_alphanumeric(c), c.is_alphanumeric(), "{:?}", c);
    }
}

#[test]
fn trimming() {
    assert_eq!(trim(" a"), "a");
    assert_eq!(trim("\u{3000}\t x y \n\u{2029}"), "x y");
    assert_eq!(trim("   "), "");
}

#[test]
fn slugs_are_their_own_slugs() {
    for s in ["My Cool_Repo!", "a--b", "--x--", "Ünïcode Straße", "", "-"] {
        let once = slugify(s);
        assert_eq!(slugify(&once), once);
        assert!(!once.starts_with('-') && !once.ends_with('-') && !once.contains("--"));
    }
}

#[test]
fn uppercase_agrees_with_std_on_every_char() {
    for c in (0u32..=0x10FFFF).filter_map(char::from_u32) {
        assert_eq!(is_uppercase(c), c.is_uppercase(), "{:?}", c);
    }
}
