//! Status codes and the status that every RPC ends with.

use crate::text::{decimal, decimal_string, join, join3, join4};
use vstd::prelude::*;

verus! {

/// The seventeen gRPC status codes.
#[derive(Debug, Clone, Copy, PartialEq, Eq, Hash, Structural)]
pub enum Code {
    OK,
    Cancelled,
    Unknown,
    InvalidArgument,
    DeadlineExceeded,
    NotFound,
    AlreadyExists,
    PermissionDenied,
    ResourceExhausted,
    FailedPrecondition,
    Aborted,
    OutOfRange,
    Unimplemented,
    Internal,
    Unavailable,
    DataLoss,
    Unauthenticated,
}

/// The number that stands for `code` on the wire.
pub open spec fn code_number(code: Code) -> u32 {
    match code {
        Code::OK => 0,
        Code::Cancelled => 1,
        Code::Unknown => 2,
        Code::InvalidArgument => 3,
        Code::DeadlineExceeded => 4,
        Code::NotFound => 5,
        Code::AlreadyExists => 6,
        Code::PermissionDenied => 7,
        Code::ResourceExhausted => 8,
        Code::FailedPrecondition => 9,
        Code::Aborted => 10,
        Code::OutOfRange => 11,
        Code::Unimplemented => 12,
        Code::Internal => 13,
        Code::Unavailable => 14,
        Code::DataLoss => 15,
        Code::Unauthenticated => 16,
    }
}

/// The name of `code`, as it is written in messages.
pub open spec fn code_name(code: Code) -> Seq<char> {
    match code {
        Code::OK => "Ok"@,
        Code::Cancelled => "Cancelled"@,
        Code::Unknown => "Unknown"@,
        Code::InvalidArgument => "InvalidArgument"@,
        Code::DeadlineExceeded => "DeadlineExceeded"@,
        Code::NotFound => "NotFound"@,
        Code::AlreadyExists => "AlreadyExists"@,
        Code::PermissionDenied => "PermissionDenied"@,
        Code::ResourceExhausted => "ResourceExhausted"@,
        Code::FailedPrecondition => "FailedPrecondition"@,
        Code::Aborted => "Aborted"@,
        Code::OutOfRange => "OutOfRange"@,
        Code::Unimplemented => "Unimplemented"@,
        Code::Internal => "Internal"@,
        Code::Unavailable => "Unavailable"@,
        Code::DataLoss => "DataLoss"@,
        Code::Unauthenticated => "Unauthenticated"@,
    }
}

impl Code {
    /// The number of this code on the wire.
    pub fn number(self) -> (n: u32)
        ensures
            n == code_number(self),
            n <= 16,
    {
        match self {
            Code::OK => 0,
            Code::Cancelled => 1,
            Code::Unknown => 2,
            Code::InvalidArgument => 3,
            Code::DeadlineExceeded => 4,
            Code::NotFound => 5,
            Code::AlreadyExists => 6,
            Code::PermissionDenied => 7,
            Code::ResourceExhausted => 8,
            Code::FailedPrecondition => 9,
            Code::Aborted => 10,
            Code::OutOfRange => 11,
            Code::Unimplemented => 12,
            Code::Internal => 13,
            Code::Unavailable => 14,
            Code::DataLoss => 15,
            Code::Unauthenticated => 16,
        }
    }

    /// The name of this code.
    pub fn name(self) -> (s: &'static str)
        ensures
            s@ == code_name(self),
    {
        match self {
            Code::OK => "Ok",
            Code::Cancelled => "Cancelled",
            Code::Unknown => "Unknown",
            Code::InvalidArgument => "InvalidArgument",
            Code::DeadlineExceeded => "DeadlineExceeded",
            Code::NotFound => "NotFound",
            Code::AlreadyExists => "AlreadyExists",
            Code::PermissionDenied => "PermissionDenied",
            Code::ResourceExhausted => "ResourceExhausted",
            Code::FailedPrecondition => "FailedPrecondition",
            Code::Aborted => "Aborted",
            Code::OutOfRange => "OutOfRange",
            Code::Unimplemented => "Unimplemented",
            Code::Internal => "Internal",
            Code::Unavailable => "Unavailable",
            Code::DataLoss => "DataLoss",
            Code::Unauthenticated => "Unauthenticated",
        }
    }
}

/// The code that the wire number `n` stands for, if there is one.
pub open spec fn code_of_number(n: u32) -> Option<Code> {
    if n <= 16 {
        Some(choose|c: Code| code_number(c) == n)
    } else {
        None
    }
}

/// A gRPC status: a code paired with a message.
#[derive(Debug, PartialEq, Eq)]
pub struct Status {
    pub code: Code,
    pub message: String,
}

/// What a `Status` says: its code and the characters of its message.
#[verifier::ext_equal]
pub struct StatusView {
    pub code: Code,
    pub message: Seq<char>,
}

impl View for Status {
    type V = StatusView;

    open spec fn view(&self) -> StatusView {
        StatusView { code: self.code, message: self.message@ }
    }
}

impl Clone for Status {
    fn clone(&self) -> (r: Self)
        ensures
            r == *self,
    {
        Status { code: self.code, message: self.message.clone() }
    }
}

/// The status with the given code and message.
pub open spec fn status(code: Code, message: Seq<char>) -> StatusView {
    StatusView { code, message }
}

impl Status {
    pub fn new(code: Code, message: &str) -> (s: Self)
        ensures
            s@ == status(code, message@),
    {
        Status { code, message: message.to_owned() }
    }

    pub fn ok() -> (s: Self)
        ensures
            s@ == status(Code::OK, seq![]),
    {
        Status { code: Code::OK, message: String::new() }
    }

    pub fn internal(msg: &str) -> (s: Self)
        ensures
            s@ == status(Code::Internal, msg@),
    {
        Status::new(Code::Internal, msg)
    }

    pub fn resource_exhausted(msg: &str) -> (s: Self)
        ensures
            s@ == status(Code::ResourceExhausted, msg@),
    {
        Status::new(Code::ResourceExhausted, msg)
    }

    pub fn unimplemented(msg: &str) -> (s: Self)
        ensures
            s@ == status(Code::Unimplemented, msg@),
    {
        Status::new(Code::Unimplemented, msg)
    }

    pub fn invalid_argument(msg: &str) -> (s: Self)
        ensures
            s@ == status(Code::InvalidArgument, msg@),
    {
        Status::new(Code::InvalidArgument, msg)
    }

    pub fn not_found(msg: &str) -> (s: Self)
        ensures
            s@ == status(Code::NotFound, msg@),
    {
        Status::new(Code::NotFound, msg)
    }

    pub fn unauthenticated(msg: &str) -> (s: Self)
        ensures
            s@ == status(Code::Unauthenticated, msg@),
    {
        Status::new(Code::Unauthenticated, msg)
    }

    pub fn cancelled(msg: &str) -> (s: Self)
        ensures
            s@ == status(Code::Cancelled, msg@),
    {
        Status::new(Code::Cancelled, msg)
    }

    pub fn deadline_exceeded(msg: &str) -> (s: Self)
        ensures
            s@ == status(Code::DeadlineExceeded, msg@),
    {
        Status::new(Code::DeadlineExceeded, msg)
    }

    pub fn unavailable(msg: &str) -> (s: Self)
        ensures
            s@ == status(Code::Unavailable, msg@),
    {
        Status::new(Code::Unavailable, msg)
    }

    /// Whether the RPC succeeded.
    pub fn is_ok(&self) -> (b: bool)
        ensures
            b == (self@.code == Code::OK),
    {
        self.code == Code::OK
    }

    /// The status as one line of text.
    pub fn to_string(&self) -> (s: String)
        ensures
            s@ == "rpc error: code = "@ + code_name(self@.code) + " desc = "@ + self@.message,
    {
        join4("rpc error: code = ", self.code.name(), " desc = ", self.message.as_str())
    }
}

/// An internal error that says in what step a fault arose.
pub open spec fn internal_at(step: Seq<char>, fault: Seq<char>) -> StatusView {
    status(Code::Internal, step + ": "@ + fault)
}

/// Builds an internal error from the step that failed and the fault's text.
pub fn internal_error(step: &str, fault: &str) -> (s: Status)
    ensures
        s@ == internal_at(step@, fault@),
{
    Status::internal(join3(step, ": ", fault).as_str())
}

/// Reads a code from its wire number.
pub fn code_from_u32(n: u32) -> (r: Result<Code, Status>)
    ensures
        match code_of_number(n) {
            Some(c) => r == Ok::<Code, Status>(c),
            None => r is Err && r->Err_0@ == status(
                Code::Internal,
                "unknown grpc-status code: "@ + decimal(n as nat),
            ),
        },
{
    proof {
        if n <= 16 {
            lemma_code_of_number(n);
        }
    }
    Ok(
        match n {
            0 => Code::OK,
            1 => Code::Cancelled,
            2 => Code::Unknown,
            3 => Code::InvalidArgument,
            4 => Code::DeadlineExceeded,
            5 => Code::NotFound,
            6 => Code::AlreadyExists,
            7 => Code::PermissionDenied,
            8 => Code::ResourceExhausted,
            9 => Code::FailedPrecondition,
            10 => Code::Aborted,
            11 => Code::OutOfRange,
            12 => Code::Unimplemented,
            13 => Code::Internal,
            14 => Code::Unavailable,
            15 => Code::DataLoss,
            16 => Code::Unauthenticated,
            _ => return Err(
                Status::internal(
                    join("unknown grpc-status code: ", decimal_string(n as u128).as_str()).as_str(),
                ),
            ),
        },
    )
}

/// Each of the wire numbers up to 16 stands for a code.
pub proof fn lemma_code_of_number(n: u32)
    requires
        n <= 16,
    ensures
        code_of_number(n) is Some,
        code_number(code_of_number(n)->0) == n,
        forall|c: Code| #[trigger] code_number(c) == n ==> code_of_number(n) == Some(c),
{
    let codes = seq![
        Code::OK,
        Code::Cancelled,
        Code::Unknown,
        Code::InvalidArgument,
        Code::DeadlineExceeded,
        Code::NotFound,
        Code::AlreadyExists,
        Code::PermissionDenied,
        Code::ResourceExhausted,
        Code::FailedPrecondition,
        Code::Aborted,
        Code::OutOfRange,
        Code::Unimplemented,
        Code::Internal,
        Code::Unavailable,
        Code::DataLoss,
        Code::Unauthenticated,
    ];
    assert(code_number(codes[n as int]) == n);
}

/// Codes and the numbers 0 to 16 correspond one to one: reading a code's number
/// gives the code back.
pub proof fn law_code_numbers(code: Code)
    ensures
        code_number(code) <= 16,
        code_of_number(code_number(code)) == Some(code),
{
    lemma_code_of_number(code_number(code));
}

/// The codes have the numbers 0 to 16 on the wire, in the order in which they are
/// declared.
pub proof fn law_wire_numbers(code: Code, n: u32)
    requires
        call_ensures(Code::number, (code,), n),
    ensures
        n < 17,
        seq![
            Code::OK,
            Code::Cancelled,
            Code::Unknown,
            Code::InvalidArgument,
            Code::DeadlineExceeded,
            Code::NotFound,
            Code::AlreadyExists,
            Code::PermissionDenied,
            Code::ResourceExhausted,
            Code::FailedPrecondition,
            Code::Aborted,
            Code::OutOfRange,
            Code::Unimplemented,
            Code::Internal,
            Code::Unavailable,
            Code::DataLoss,
            Code::Unauthenticated,
        ][n as int] == code,
        code_number(code) == n,
{
}

/// A number that some code has on the wire is read as that code; any other number is
/// an internal error.
pub proof fn law_numbers_are_read_as_their_code(
    code: Code,
    n: u32,
    read: Result<Code, Status>,
    other: u32,
    refused: Result<Code, Status>,
)
    requires
        call_ensures(Code::number, (code,), n),
        call_ensures(code_from_u32, (n,), read),
        other > 16,
        call_ensures(code_from_u32, (other,), refused),
    ensures
        read == Ok::<Code, Status>(code),
        refused matches Err(e) && e.code == Code::Internal && e.message@
            == "unknown grpc-status code: "@ + decimal(other as nat),
{
    lemma_code_of_number(n);
}

/// The names of the codes, as they are written in messages.
pub proof fn law_code_names(code: Code, s: &str)
    requires
        call_ensures(Code::name, (code,), s),
    ensures
        code == Code::OK ==> s@ == "Ok"@,
        code == Code::Cancelled ==> s@ == "Cancelled"@,
        code == Code::Unknown ==> s@ == "Unknown"@,
        code == Code::InvalidArgument ==> s@ == "InvalidArgument"@,
        code == Code::DeadlineExceeded ==> s@ == "DeadlineExceeded"@,
        code == Code::NotFound ==> s@ == "NotFound"@,
        code == Code::AlreadyExists ==> s@ == "AlreadyExists"@,
        code == Code::PermissionDenied ==> s@ == "PermissionDenied"@,
        code == Code::ResourceExhausted ==> s@ == "ResourceExhausted"@,
        code == Code::FailedPrecondition ==> s@ == "FailedPrecondition"@,
        code == Code::Aborted ==> s@ == "Aborted"@,
        code == Code::OutOfRange ==> s@ == "OutOfRange"@,
        code == Code::Unimplemented ==> s@ == "Unimplemented"@,
        code == Code::Internal ==> s@ == "Internal"@,
        code == Code::Unavailable ==> s@ == "Unavailable"@,
        code == Code::DataLoss ==> s@ == "DataLoss"@,
        code == Code::Unauthenticated ==> s@ == "Unauthenticated"@,
{
}

/// A status holds the very code and message that it was made of, whatever they are.
pub proof fn law_statuses_hold_what_they_are_made_of(code: Code, msg: &str, s: Status)
    ensures
        call_ensures(Status::new, (code, msg), s) ==> s.code == code && s.message@ == msg@,
        call_ensures(Status::internal, (msg,), s) ==> s.code == Code::Internal && s.message@
            == msg@,
        call_ensures(Status::resource_exhausted, (msg,), s) ==> s.code == Code::ResourceExhausted
            && s.message@ == msg@,
        call_ensures(Status::unimplemented, (msg,), s) ==> s.code == Code::Unimplemented
            && s.message@ == msg@,
        call_ensures(Status::invalid_argument, (msg,), s) ==> s.code == Code::InvalidArgument
            && s.message@ == msg@,
        call_ensures(Status::not_found, (msg,), s) ==> s.code == Code::NotFound && s.message@
            == msg@,
        call_ensures(Status::unauthenticated, (msg,), s) ==> s.code == Code::Unauthenticated
            && s.message@ == msg@,
        call_ensures(Status::cancelled, (msg,), s) ==> s.code == Code::Cancelled && s.message@
            == msg@,
        call_ensures(Status::deadline_exceeded, (msg,), s) ==> s.code == Code::DeadlineExceeded
            && s.message@ == msg@,
        call_ensures(Status::unavailable, (msg,), s) ==> s.code == Code::Unavailable && s.message@
            == msg@,
        call_ensures(Status::ok, (), s) ==> s.code == Code::OK && s.message@.len() == 0,
        status(code, msg@).code == code,
        status(code, msg@).message == msg@,
{
}

/// A status is a success if its code is `OK`, whatever its message, and in no other
/// case.
pub proof fn law_only_ok_is_a_success(s: &Status, b: bool)
    requires
        call_ensures(Status::is_ok, (s,), b),
    ensures
        b <==> s.code == Code::OK,
{
}

/// The line of text that a status is written as gives the name of its code and all of
/// its message.
pub proof fn law_text_of_a_status(s: &Status, name: &str, text: String)
    requires
        call_ensures(Code::name, (s.code,), name),
        call_ensures(Status::to_string, (s,), text),
    ensures
        text@ == "rpc error: code = "@ + name@ + " desc = "@ + s.message@,
{
}

/// An internal error names the step that failed and keeps all of the fault's text.
pub proof fn law_internal_errors_name_the_step(step: &str, fault: &str, s: Status)
    requires
        call_ensures(internal_error, (step, fault), s),
    ensures
        s.code == Code::Internal,
        s.message@ == step@ + ": "@ + fault@,
        s@ == internal_at(step@, fault@),
{
}

/// A copy of a status has the same code and message.
pub proof fn law_statuses_are_copied(s: &Status, copy: Status)
    requires
        call_ensures(<Status as Clone>::clone, (s,), copy),
    ensures
        copy.code == s.code,
        copy.message@ == s.message@,
{
}

} // verus!
