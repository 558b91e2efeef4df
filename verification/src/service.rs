//! The HTTP-level logic of the service: the static form page, and the
//! handling of a computation request from raw body bytes to an HTML
//! response. Everything here is pure; binding a listener and moving bytes
//! lives outside the library.

use vstd::prelude::*;
use crate::digits::{dec_chars, u64_to_string};
use crate::form::{GcdParameters, ValidationError, parse_gcd_request, request_outcome};
use crate::kernel::{gcd, gcd_spec};

verus! {

/// An HTML response: the status code and the page body.
pub struct HtmlResponse {
    pub status: u16,
    pub body: String,
}

/// The static page served at the root path: a form posting `n` and `m` to
/// the computation route.
pub open spec fn index_page() -> Seq<char> {
    "\n                <title>GCD Calculator</title>\n                <form action=\"/gcd\" method=\"post\">\n                <input type=\"text\" name=\"n\"/>\n                <input type=\"text\" name=\"m\"/>\n                <button type=\"submit\">Compute GCD</button>\n                </form>\n            "@
}

/// The body sent with a rejected request.
pub open spec fn error_message(e: ValidationError) -> Seq<char> {
    match e {
        ValidationError::Malformed => "The request body is not valid form data."@,
        ValidationError::MissingField => "Both an n and an m field must be supplied."@,
        ValidationError::NonNumeric => "The fields n and m must be unsigned 64-bit decimal integers."@,
        ValidationError::ZeroValue => "Computing the GCD with zero is boring."@,
    }
}

/// The body sent with a computed result.
pub open spec fn success_body(n: nat, m: nat, d: nat) -> Seq<char> {
    "The greatest common divisor of the numbers "@ + dec_chars(n) + " and "@ + dec_chars(m)
        + " is <b>"@ + dec_chars(d) + "</b>\n"@
}

/// Serves the form page. Always succeeds with the same static page.
pub fn get_index() -> (r: HtmlResponse)
    ensures
        r.status == 200,
        r.body@ == index_page(),
{
    HtmlResponse {
        status: 200,
        body: String::from_str(
            "\n                <title>GCD Calculator</title>\n                <form action=\"/gcd\" method=\"post\">\n                <input type=\"text\" name=\"n\"/>\n                <input type=\"text\" name=\"m\"/>\n                <button type=\"submit\">Compute GCD</button>\n                </form>\n            ",
        ),
    }
}

fn error_body(e: ValidationError) -> (r: String)
    ensures
        r@ == error_message(e),
{
    match e {
        ValidationError::Malformed => String::from_str(
            "The request body is not valid form data.",
        ),
        ValidationError::MissingField => String::from_str(
            "Both an n and an m field must be supplied.",
        ),
        ValidationError::NonNumeric => String::from_str(
            "The fields n and m must be unsigned 64-bit decimal integers.",
        ),
        ValidationError::ZeroValue => String::from_str(
            "Computing the GCD with zero is boring.",
        ),
    }
}

fn render_success(n: u64, m: u64, d: u64) -> (r: String)
    ensures
        r@ == success_body(n as nat, m as nat, d as nat),
{
    let mut s = String::from_str("The greatest common divisor of the numbers ");
    s.append(u64_to_string(n).as_str());
    s.append(" and ");
    s.append(u64_to_string(m).as_str());
    s.append(" is <b>");
    s.append(u64_to_string(d).as_str());
    s.append("</b>\n");
    proof {
        assert(s@ =~= success_body(n as nat, m as nat, d as nat));
    }
    s
}

/// Answers a parsed request: rejects a zero operand, otherwise computes the
/// divisor and renders it. The kernel is called only with non-zero
/// operands.
pub fn post_gcd(form: GcdParameters) -> (r: HtmlResponse)
    ensures
        form.n == 0 || form.m == 0 ==> r.status == 400 && r.body@ == error_message(
            ValidationError::ZeroValue,
        ),
        form.n != 0 && form.m != 0 ==> r.status == 200 && r.body@ == success_body(
            form.n as nat,
            form.m as nat,
            gcd_spec(form.n as nat, form.m as nat),
        ),
{
    if form.n == 0 || form.m == 0 {
        return HtmlResponse { status: 400, body: error_body(ValidationError::ZeroValue) };
    }
    let d = gcd(form.n, form.m);
    HtmlResponse { status: 200, body: render_success(form.n, form.m, d) }
}

/// Handles a computation request end to end: parses the body, validates
/// it, and renders exactly one response. A valid request gets status 200
/// with the computed divisor; every rejected body gets status 400 with the
/// message `request_outcome` assigns to it.
pub fn handle_computation(body: &[u8]) -> (r: HtmlResponse)
    ensures
        match request_outcome(body@) {
            Ok(p) => r.status == 200 && r.body@ == success_body(
                p.0 as nat,
                p.1 as nat,
                gcd_spec(p.0 as nat, p.1 as nat),
            ),
            Err(e) => r.status == 400 && r.body@ == error_message(e),
        },
{
    match parse_gcd_request(body) {
        Ok(params) => post_gcd(params),
        Err(e) => HtmlResponse { status: 400, body: error_body(e) },
    }
}

} // verus!
