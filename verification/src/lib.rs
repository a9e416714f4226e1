//! Verified update availability checking.
//!
//! The library compares dotted numeric version strings and decides, from a
//! release registry's response, whether a newer release than the running
//! application's version is available. All decision logic is verified; the
//! caller performs the HTTP request and hands the status code and body text
//! to [`checker::check_response`].

pub mod checker;
pub mod version;

pub use checker::check_response;
pub use checker::check_response_body;
pub use checker::evaluate_release;
pub use checker::release_endpoint;
pub use checker::status_success;
pub use checker::UpdateInfo;
pub use version::is_newer;
