use farm_grid::grid::{age_of, is_age_of_period};
use farm_grid::parse::{parse_i32, parse_i64, parse_thousandths};
use farm_grid::records::{User, UserPublic};

#[test]
fn integers_parse_like_std() {
    assert_eq!(parse_i64("42"), Some(42));
    assert_eq!(parse_i64("+7"), Some(7));
    assert_eq!(parse_i64("-0"), Some(0));
    assert_eq!(parse_i64("007"), Some(7));
    assert_eq!(parse_i64("9223372036854775807"), Some(i64::MAX));
    assert_eq!(parse_i64("-9223372036854775808"), Some(i64::MIN));
    assert_eq!(parse_i64("9223372036854775808"), None);
    assert_eq!(parse_i64("-9223372036854775809"), None);
    assert_eq!(parse_i64("123456789012345678901234567890"), None);
    assert_eq!(parse_i64(""), None);
    assert_eq!(parse_i64("-"), None);
    assert_eq!(parse_i64("1 2"), None);
    assert_eq!(parse_i64(" 1"), None);
    assert_eq!(parse_i32("2147483647"), Some(i32::MAX));
    assert_eq!(parse_i32("2147483648"), None);
    assert_eq!(parse_i32("-2147483648"), Some(i32::MIN));
    for s in ["0", "5", "-12", "+99", "1e3", "", "x"] {
        assert_eq!(parse_i64(s), s.parse::<i64>().ok());
    }
}

#[test]
fn decimals_parse_to_thousandths() {
    assert_eq!(parse_thousandths("2"), Some(2000));
    assert_eq!(parse_thousandths("2.5"), Some(2500));
    assert_eq!(parse_thousandths("2.05"), Some(2050));
    assert_eq!(parse_thousandths("0.125"), Some(125));
    assert_eq!(parse_thousandths("-1.5"), Some(-1500));
    assert_eq!(parse_thousandths("+3"), Some(3000));
    assert_eq!(parse_thousandths("1.2345"), None);
    assert_eq!(parse_thousandths(".5"), None);
    assert_eq!(parse_thousandths("5."), None);
    assert_eq!(parse_thousandths("1,5"), None);
    assert_eq!(parse_thousandths(""), None);
    assert_eq!(parse_thousandths("9223372036854775.807"), Some(i64::MAX));
    assert_eq!(parse_thousandths("-9223372036854775.808"), Some(i64::MIN));
    assert_eq!(parse_thousandths("9223372036854776"), None);
}

#[test]
fn ages_follow_the_period_formula() {
    assert_eq!(age_of(1, 1), 1);
    assert_eq!(age_of(1, 7), 7);
    assert_eq!(age_of(3, 1), 15);
    assert_eq!(age_of(8, 7), 56);
    assert!(is_age_of_period(2, 8));
    assert!(is_age_of_period(2, 14));
    assert!(!is_age_of_period(2, 15));
    assert!(!is_age_of_period(9, 57));
    assert!(!is_age_of_period(0, 0));
}

#[test]
fn public_user_drops_the_password_hash() {
    let u = User {
        id: 3,
        username: "awa".to_string(),
        email: "awa@example.org".to_string(),
        password_hash: "hash".to_string(),
        created_at: "2024-01-01".to_string(),
        updated_at: "2024-01-02".to_string(),
    };
    let p = UserPublic::from(u);
    assert_eq!(p.id, 3);
    assert_eq!(p.username, "awa");
    assert_eq!(p.email, "awa@example.org");
    assert_eq!(p.updated_at, "2024-01-02");
}
