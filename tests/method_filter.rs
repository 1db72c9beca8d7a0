use monet::{Method, MethodFilter};

#[test]
fn or_unions_and_contains_tests_inclusion() {
    let get = MethodFilter::from_method(Method::Get);
    let post = MethodFilter::from_method(Method::Post);
    let both = get.or(post);
    assert!(both.contains(get));
    assert!(both.contains(post));
    assert!(!get.contains(post));
    assert!(!get.contains(both));
    assert!(both.contains(both));
    assert_eq!(both, post.or(get));
}

#[test]
fn every_method_has_its_own_bit() {
    let all = [
        Method::Connect,
        Method::Delete,
        Method::Get,
        Method::Head,
        Method::Options,
        Method::Patch,
        Method::Post,
        Method::Put,
        Method::Trace,
    ];
    for (i, a) in all.iter().enumerate() {
        for (j, b) in all.iter().enumerate() {
            let fa = MethodFilter::from_method(*a);
            let fb = MethodFilter::from_method(*b);
            assert_eq!(fa.contains(fb), i == j);
        }
    }
}
