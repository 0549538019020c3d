use grpc_rs::status::{code_from_u32, Code, Status};

const CODES: [Code; 17] = [
    Code::OK,
    Code::Cancelled,
    Code::Unknown,
    Code::InvalidArgument,
    Code::DeadlineExceeded,
    Code::NotFound,
    Code::AlreadyExists,
    Code::PermissionDenied,
    Code::ResourceExhausted,
    Code::FailedPrecondition,
    Code::Aborted,
    Code::OutOfRange,
    Code::Unimplemented,
    Code::Internal,
    Code::Unavailable,
    Code::DataLoss,
    Code::Unauthenticated,
];

#[test]
fn code_numbers_round_trip() {
    for (i, code) in CODES.iter().enumerate() {
        assert_eq!(code.number(), i as u32);
        assert_eq!(code_from_u32(i as u32).unwrap(), *code);
    }
}

#[test]
fn unknown_code_number_is_internal() {
    let e = code_from_u32(17).unwrap_err();
    assert_eq!(e, Status::internal("unknown grpc-status code: 17"));
    let e = code_from_u32(u32::MAX).unwrap_err();
    assert_eq!(e.message, "unknown grpc-status code: 4294967295");
}

#[test]
fn constructors_set_code_and_message() {
    assert_eq!(Status::new(Code::Aborted, "a"), Status { code: Code::Aborted, message: "a".into() });
    assert_eq!(Status::ok().code, Code::OK);
    assert_eq!(Status::ok().message, "");
    assert_eq!(Status::internal("m").code, Code::Internal);
    assert_eq!(Status::resource_exhausted("m").code, Code::ResourceExhausted);
    assert_eq!(Status::unimplemented("m").code, Code::Unimplemented);
    assert_eq!(Status::invalid_argument("m").code, Code::InvalidArgument);
    assert_eq!(Status::cancelled("m").code, Code::Cancelled);
    assert_eq!(Status::deadline_exceeded("m").code, Code::DeadlineExceeded);
    assert_eq!(Status::unavailable("m").code, Code::Unavailable);
    assert_eq!(Status::not_found("m").code, Code::NotFound);
    assert_eq!(Status::unauthenticated("m").code, Code::Unauthenticated);
    assert_eq!(Status::unauthenticated("m").message, "m");
}

#[test]
fn only_ok_is_ok() {
    for code in CODES {
        assert_eq!(Status::new(code, "").is_ok(), code == Code::OK);
    }
}

#[test]
fn status_is_displayed_with_code_and_message() {
    assert_eq!(
        Status::not_found("no such row").to_string(),
        "rpc error: code = NotFound desc = no such row"
    );
    assert_eq!(Status::ok().to_string(), "rpc error: code = Ok desc = ");
}

#[test]
fn clone_is_equal() {
    let s = Status::unavailable("down");
    assert_eq!(s.clone(), s);
}
