use powsing::user::build_user;

#[test]
fn build_user_sets_defaults() {
    let u = build_user(String::from("someone@example.com"), String::from("someusername123"));
    assert!(u.active);
    assert_eq!(u.email, "someone@example.com");
    assert_eq!(u.username, "someusername123");
    assert_eq!(u.sign_in_count, 1);
}
