//! The fixed confirmation page sent back to the browser.
//!
//! The reply is a minimal, well-formed HTTP/1.1 200 response: a
//! `text/html` content type, a `Content-Length` that renders the body's
//! length in decimal, `Connection: close`, and a body telling the user the
//! application is connected. Writing it is a courtesy to the browser tab;
//! the caller ignores write failures, since the code is captured already.

use vstd::prelude::*;
use vstd::string::StringExecFns;

verus! {

/// The confirmation page shown in the browser tab.
pub open spec fn spec_body() -> Seq<char> {
    "<html><body><h1>Connected!</h1><p>You can close this tab and return to the application.</p></body></html>"@
}

/// The decimal digit character for `d`, for `d < 10`.
pub open spec fn digit_char(d: nat) -> char {
    if d == 0 {
        '0'
    } else if d == 1 {
        '1'
    } else if d == 2 {
        '2'
    } else if d == 3 {
        '3'
    } else if d == 4 {
        '4'
    } else if d == 5 {
        '5'
    } else if d == 6 {
        '6'
    } else if d == 7 {
        '7'
    } else if d == 8 {
        '8'
    } else {
        '9'
    }
}

/// The decimal rendering of `n`, most significant digit first.
pub open spec fn dec_digits(n: nat) -> Seq<char>
    decreases n,
{
    if n < 10 {
        seq![digit_char(n)]
    } else {
        dec_digits(n / 10) + seq![digit_char(n % 10)]
    }
}

/// The whole response: status line, headers whose `Content-Length` is the
/// decimal rendering of the body's length, a blank line, then the body.
/// The body is ASCII (see [`lemma_body_ascii`]), so the length counted in
/// characters here is also its length in bytes on the wire.
pub open spec fn spec_response() -> Seq<char> {
    "HTTP/1.1 200 OK\r\nContent-Type: text/html\r\nContent-Length: "@ + dec_digits(
        spec_body().len(),
    ) + "\r\nConnection: close\r\n\r\n"@ + spec_body()
}

/// Every character of the body is ASCII, so `Content-Length`, which renders
/// the body's length in characters, equals the body's byte length.
pub proof fn lemma_body_ascii()
    ensures
        forall|i: int| 0 <= i < spec_body().len() ==> ((#[trigger] spec_body()[i]) as nat) < 128,
{
    reveal_strlit("<html><body><h1>Connected!</h1><p>You can close this tab and return to the application.</p></body></html>");
}

/// Build the full confirmation response.
pub fn confirmation_response() -> (r: String)
    ensures
        r@ == spec_response(),
{
    proof {
        reveal_strlit("<html><body><h1>Connected!</h1><p>You can close this tab and return to the application.</p></body></html>");
        reveal_strlit("105");
        assert(spec_body().len() == 105);
        assert(dec_digits(1) =~= seq!['1']);
        assert(dec_digits(10) =~= seq!['1', '0']);
        assert(dec_digits(105) =~= seq!['1', '0', '5']);
        assert("105"@ =~= seq!['1', '0', '5']);
    }
    let mut r = "HTTP/1.1 200 OK\r\nContent-Type: text/html\r\nContent-Length: ".to_owned();
    r.append("105");
    r.append("\r\nConnection: close\r\n\r\n");
    r.append(
        "<html><body><h1>Connected!</h1><p>You can close this tab and return to the application.</p></body></html>",
    );
    r
}

} // verus!
