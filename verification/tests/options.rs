use benchrs::options::{count, method, verbosity, Verbosity};
use benchrs::producer::RequestMethod;

#[test]
fn verbosity_grows() {
    assert_eq!(verbosity(0), Verbosity::Info);
    assert_eq!(verbosity(1), Verbosity::Debug);
    assert_eq!(verbosity(2), Verbosity::Trace);
    assert_eq!(verbosity(u64::MAX), Verbosity::Trace);
}

#[test]
fn counts() {
    assert_eq!(count(None), Some(1));
    assert_eq!(count(Some("0")), Some(0));
    assert_eq!(count(Some("0250")), Some(250));
    assert_eq!(count(Some("+7")), Some(7));
    assert_eq!(count(Some("18446744073709551615")), Some(usize::MAX));
    assert_eq!(count(Some("18446744073709551616")), None);
    assert_eq!(count(Some("")), None);
    assert_eq!(count(Some("+")), None);
    assert_eq!(count(Some("-1")), None);
    assert_eq!(count(Some("1f")), None);
    assert_eq!(count(Some(" 1")), None);
}

#[test]
fn methods_from_arguments() {
    assert_eq!(method(None), Ok(RequestMethod::Get));
    assert_eq!(method(Some("hEaD")), Ok(RequestMethod::Head));
    assert_eq!(method(Some("POST")), Ok(RequestMethod::Post));
    assert_eq!(method(Some("DELETE")), Err("Invalid method"));
}
