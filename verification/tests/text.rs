use rust_db::text::{compare_text, eq_ignore_ascii_case, to_ascii_lowercase, Order};

#[test]
fn lowercasing_touches_only_ascii_capitals() {
    assert_eq!(to_ascii_lowercase("UserAccounts"), "useraccounts");
    assert_eq!(to_ascii_lowercase("ÄBC-9"), "Äbc-9");
    assert_eq!(to_ascii_lowercase(""), "");
}

#[test]
fn case_insensitive_equality() {
    assert!(eq_ignore_ascii_case("Users", "uSERS"));
    assert!(!eq_ignore_ascii_case("user", "users"));
    assert!(!eq_ignore_ascii_case("Ä", "ä"));
    assert_eq!(eq_ignore_ascii_case("Straße", "STRAßE"), "Straße".eq_ignore_ascii_case("STRAßE"));
}

#[test]
fn text_order_matches_str_order() {
    let words = ["", "a", "A", "ab", "b", "é", "z", "Zeta", "zz"];
    for a in words {
        for b in words {
            let expected = match a.cmp(b) {
                std::cmp::Ordering::Less => Order::Less,
                std::cmp::Ordering::Equal => Order::Equal,
                std::cmp::Ordering::Greater => Order::Greater,
            };
            assert_eq!(compare_text(a, b), expected);
        }
    }
}
