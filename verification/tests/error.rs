use nargo::error::{Context, Error, ErrorKind};

#[test]
fn error() {
    let result: Result<(), Error> =
        Err(Error::from_string("this is an error".to_owned()));
    let result2 = result.clone().context("some context");

    assert_eq!(result.unwrap_err().msg, b"this is an error".to_vec());
    assert_eq!(
        result2.unwrap_err().msg,
        b"some context: this is an error".to_vec()
    );
}

#[test]
fn error_kind_is_kept_under_context() {
    let e = Error::new(ErrorKind::Inconsistent, b"bad graph".to_vec());
    let r: Result<(), Error> = Err(e);
    let r2 = r.context("while checking");
    let e2 = r2.unwrap_err();
    assert_eq!(e2.kind, ErrorKind::Inconsistent);
    assert_eq!(e2.msg, b"while checking: bad graph".to_vec());
}

#[test]
fn option_context_reports_the_note() {
    let r: Option<u32> = None;
    let e = r.context("missing value").unwrap_err();
    assert_eq!(e.msg, b"missing value".to_vec());
    assert_eq!(Some(7u32).context("missing value").unwrap(), 7);
}
