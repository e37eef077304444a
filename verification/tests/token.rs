use prepona::storage::token::UsizeTokenProvider;

#[test]
fn tokens_count_up_from_zero() {
    let mut p = UsizeTokenProvider::init();
    assert!(p.has_next());
    assert_eq!(p.get(), Some(0));
    assert_eq!(p.get(), Some(1));
    p.free(0);
    assert_eq!(p.get(), Some(2));
    assert!(p.has_next());
}
