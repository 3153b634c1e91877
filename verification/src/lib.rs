//! A single-use, time-bounded loopback HTTP redirect listener for completing
//! an OAuth authorization-code flow.
//!
//! The library holds everything that can be stated and proved: parsing the
//! authorization code out of the one request line ([`parse`]), the decision
//! taken on each turn of the accept-poll loop ([`listener`]), and the fixed
//! confirmation page sent back to the browser ([`response`]). The sockets,
//! the clock and the sleeps live outside the library; they feed plain values
//! (the request line that was read, the current time) into the verified
//! functions and carry their decisions out.

pub mod listener;
pub mod parse;
pub mod response;
