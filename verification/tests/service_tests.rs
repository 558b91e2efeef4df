use gcd_service::digits::u64_to_string;
use gcd_service::form::{parse_gcd_request, GcdParameters, ValidationError};
use gcd_service::service::{get_index, handle_computation, post_gcd};

#[test]
fn index_serves_the_form() {
    let r = get_index();
    assert_eq!(r.status, 200);
    assert!(r.body.contains("<form"));
    assert!(r.body.contains("name=\"n\""));
    assert!(r.body.contains("name=\"m\""));
    assert!(r.body.contains("action=\"/gcd\""));
}

#[test]
fn zero_operand_is_rejected() {
    let r = handle_computation(b"n=0&m=5");
    assert_eq!(r.status, 400);
    assert!(r.body.contains("zero"));
}

#[test]
fn both_operands_zero_get_the_same_message() {
    let r = handle_computation(b"n=0&m=0");
    assert_eq!(r.status, 400);
    assert_eq!(r.body, "Computing the GCD with zero is boring.");
}

#[test]
fn valid_request_computes_the_divisor() {
    let r = handle_computation(b"n=12&m=18");
    assert_eq!(r.status, 200);
    assert!(r.body.contains("6"));
    assert_eq!(
        r.body,
        "The greatest common divisor of the numbers 12 and 18 is <b>6</b>\n"
    );
}

#[test]
fn non_numeric_field_is_rejected() {
    let r = handle_computation(b"n=abc&m=5");
    assert_eq!(r.status, 400);
}

#[test]
fn missing_field_is_rejected() {
    let r = handle_computation(b"n=5");
    assert_eq!(r.status, 400);
    assert!(r.body.contains("must be supplied"));
}

#[test]
fn empty_body_is_rejected() {
    let r = handle_computation(b"");
    assert_eq!(r.status, 400);
}

#[test]
fn field_order_does_not_matter() {
    let r = handle_computation(b"m=18&n=12");
    assert_eq!(r.status, 200);
    assert_eq!(
        r.body,
        "The greatest common divisor of the numbers 12 and 18 is <b>6</b>\n"
    );
}

#[test]
fn unknown_fields_are_ignored() {
    let r = handle_computation(b"n=12&m=18&comment=hello");
    assert_eq!(r.status, 200);
}

#[test]
fn repeated_field_is_rejected() {
    let r = handle_computation(b"n=1&n=2&m=3");
    assert_eq!(r.status, 400);
    assert!(r.body.contains("not valid form data"));
}

#[test]
fn percent_escapes_are_decoded() {
    // "%31%32" decodes to "12"
    let r = handle_computation(b"n=%31%32&m=18");
    assert_eq!(r.status, 200);
    assert_eq!(
        r.body,
        "The greatest common divisor of the numbers 12 and 18 is <b>6</b>\n"
    );
}

#[test]
fn bad_percent_escape_is_rejected() {
    let r = handle_computation(b"n=%zz&m=1");
    assert_eq!(r.status, 400);
    assert!(r.body.contains("not valid form data"));
}

#[test]
fn plus_decodes_to_a_space_and_fails_numeric_parsing() {
    let r = handle_computation(b"n=+12&m=5");
    assert_eq!(r.status, 400);
}

#[test]
fn empty_value_is_rejected() {
    let r = handle_computation(b"n=&m=1");
    assert_eq!(r.status, 400);
}

#[test]
fn value_above_u64_max_is_rejected() {
    let r = handle_computation(b"n=18446744073709551616&m=1");
    assert_eq!(r.status, 400);
}

#[test]
fn u64_max_is_accepted() {
    let r = handle_computation(b"n=18446744073709551615&m=1");
    assert_eq!(r.status, 200);
    assert!(r.body.contains("18446744073709551615"));
    assert!(r.body.contains("<b>1</b>"));
}

#[test]
fn parser_reports_each_error_kind() {
    assert_eq!(parse_gcd_request(b"n=1&n=2&m=3"), Err(ValidationError::Malformed));
    assert_eq!(parse_gcd_request(b"m=3"), Err(ValidationError::MissingField));
    assert_eq!(parse_gcd_request(b"n=abc&m=3"), Err(ValidationError::NonNumeric));
    assert_eq!(
        parse_gcd_request(b"n=1&m=2"),
        Ok(GcdParameters { n: 1, m: 2 })
    );
}

#[test]
fn parser_skips_empty_segments() {
    assert_eq!(
        parse_gcd_request(b"&n=1&&m=2&"),
        Ok(GcdParameters { n: 1, m: 2 })
    );
}

#[test]
fn post_gcd_rejects_zero_without_computing() {
    let r = post_gcd(GcdParameters { n: 0, m: 5 });
    assert_eq!(r.status, 400);
    assert_eq!(r.body, "Computing the GCD with zero is boring.");
}

#[test]
fn post_gcd_renders_the_result() {
    let r = post_gcd(GcdParameters { n: 14, m: 15 });
    assert_eq!(r.status, 200);
    assert_eq!(
        r.body,
        "The greatest common divisor of the numbers 14 and 15 is <b>1</b>\n"
    );
}

#[test]
fn decimal_rendering_is_exact() {
    assert_eq!(u64_to_string(0), "0");
    assert_eq!(u64_to_string(7), "7");
    assert_eq!(u64_to_string(120), "120");
    assert_eq!(u64_to_string(18446744073709551615), "18446744073709551615");
}
