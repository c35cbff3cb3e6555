//! The answer that every endpoint of the platform gives.
use vstd::prelude::*;

use crate::common::error::Error;

verus! {

/// The message of a successful answer.
pub open spec fn success_msg() -> Seq<char> {
    "成功"@
}

/// `r` is the successful answer carrying a copy of `v`.
pub open spec fn is_success<T: Clone>(r: ResponseVo<T>, v: T) -> bool {
    &&& r.code == 0
    &&& r.status
    &&& r.msg@ == success_msg()
    &&& r.body matches Some(b) && cloned(v, b)
}

/// `r` is the failed answer with message `msg`.
pub open spec fn is_failure<T>(r: ResponseVo<T>, msg: Seq<char>) -> bool {
    &&& r.code == 1
    &&& !r.status
    &&& r.msg@ == msg
    &&& r.body is None
}

/// An answer: whether it succeeded, its code (0 on success, 1 on failure),
/// a message and, on success, a body.
#[derive(Debug, Clone)]
pub struct ResponseVo<T> {
    pub status: bool,
    pub code: u8,
    pub msg: String,
    pub body: Option<T>,
}

impl<T: Clone> ResponseVo<T> {
    /// A successful answer carrying a copy of the value, or a failed one
    /// carrying the error's message.
    pub fn from_result(arg: &Result<T, Error>) -> (r: Self)
        ensures
            match arg {
                Ok(v) => is_success(r, *v),
                Err(e) => is_failure(r, e.text()),
            },
    {
        match arg {
            Ok(v) => ResponseVo {
                code: 0,
                msg: String::from_str("成功"),
                status: true,
                body: Some(v.clone()),
            },
            Err(e) => ResponseVo { code: 1, msg: e.message(), status: false, body: None },
        }
    }

    /// A successful answer carrying a copy of `arg`.
    pub fn from(arg: &T) -> (r: Self)
        ensures
            is_success(r, *arg),
    {
        ResponseVo { code: 0, msg: String::from_str("成功"), status: true, body: Some(arg.clone()) }
    }

    /// A failed answer carrying the error's message.
    pub fn from_error(arg: &Error) -> (r: Self)
        ensures
            is_failure(r, arg.text()),
    {
        ResponseVo { code: 1, msg: arg.message(), status: false, body: None }
    }

    /// A failed answer carrying `info` as its message.
    pub fn from_error_info(info: &str) -> (r: Self)
        ensures
            is_failure(r, info@),
    {
        ResponseVo { code: 1, msg: String::from_str(info), status: false, body: None }
    }
}

/// An answer built from a result succeeds exactly when the result is `Ok`:
/// its status, its code and whether it has a body all follow the result.
pub proof fn law_answer_follows_result<T: Clone>(arg: Result<T, Error>, r: ResponseVo<T>)
    requires
        match arg {
            Ok(v) => is_success(r, v),
            Err(e) => is_failure(r, e.text()),
        },
    ensures
        r.status == arg is Ok,
        r.body is Some == arg is Ok,
        r.code == if arg is Ok { 0u8 } else { 1u8 },
{
}

/// Two successful answers for the same value agree in status, code and
/// message, and each carries a clone of the value; so an answer built from
/// `Ok(v)` is the answer built from `v`, up to the clone of `v`.
pub proof fn law_success_answers_agree<T: Clone>(r1: ResponseVo<T>, r2: ResponseVo<T>, v: T)
    requires
        is_success(r1, v),
        is_success(r2, v),
    ensures
        r1.status == r2.status,
        r1.code == r2.code,
        r1.msg@ == r2.msg@,
        r1.body matches Some(b1) && cloned(v, b1),
        r2.body matches Some(b2) && cloned(v, b2),
{
}

/// For a `String` value, whose clone is equal to it, the two bodies are equal too.
pub proof fn law_string_success_bodies_equal(r1: ResponseVo<String>, r2: ResponseVo<String>, v: String)
    requires
        is_success(r1, v),
        is_success(r2, v),
    ensures
        r1.body == r2.body,
        r1.body == Some(v),
{
}

/// Two failed answers with the same message agree in every field's value:
/// an answer built from `Err(e)` is the answer built from `e`.
pub proof fn law_failure_answers_agree<T>(r1: ResponseVo<T>, r2: ResponseVo<T>, msg: Seq<char>)
    requires
        is_failure(r1, msg),
        is_failure(r2, msg),
    ensures
        r1.status == r2.status,
        r1.code == r2.code,
        r1.msg@ == r2.msg@,
        r1.body == r2.body,
{
}

} // verus!
