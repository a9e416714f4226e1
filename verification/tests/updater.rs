use update_check::check_response;
use update_check::check_response_body;
use update_check::evaluate_release;
use update_check::is_newer;
use update_check::release_endpoint;
use update_check::status_success;

#[test]
fn test_is_newer() {
    assert!(is_newer("0.4.0", "0.3.1"));
    assert!(is_newer("1.0.0", "0.9.9"));
    assert!(is_newer("0.3.2", "0.3.1"));
    assert!(!is_newer("0.3.1", "0.3.1"));
    assert!(!is_newer("0.3.0", "0.3.1"));
    assert!(!is_newer("0.2.9", "0.3.0"));
    assert!(is_newer("0.10.0", "0.9.0"));
}

#[test]
fn test_is_newer_irreflexive() {
    assert!(!is_newer("1.0", "1.0"));
    assert!(!is_newer("", ""));
    assert!(!is_newer("1.0.x", "1.0.x"));
}

#[test]
fn test_numeric_width_independence() {
    assert!(is_newer("0.10.0", "0.9.0"));
    assert!(!is_newer("0.9.0", "0.10.0"));
}

#[test]
fn test_segment_count_independence() {
    assert!(!is_newer("1.0.0", "1.0"));
    assert!(!is_newer("1.0", "1.0.0"));
    assert!(is_newer("1.0.1", "1.0"));
    assert!(!is_newer("1.0", "1.0.1"));
}

#[test]
fn test_non_numeric_segments_dropped() {
    assert!(!is_newer("1.0.x", "1.0"));
    assert!(!is_newer("1.0", "1.0.x"));
    assert!(is_newer("1.0.1", "1.0.x"));
    assert!(is_newer("2", "1.9.9"));
    assert!(!is_newer("", "0.0.1"));
    assert!(is_newer("0.0.1", ""));
}

#[test]
fn test_plus_sign_and_overflow_segments() {
    assert!(!is_newer("+1.0", "1.0"));
    assert!(!is_newer("1.0", "+1.0"));
    assert!(is_newer("18446744073709551615.0", "1"));
    assert!(!is_newer("99999999999999999999.1", "2"));
    assert!(is_newer("2", "99999999999999999999.1"));
}

#[test]
fn test_evaluate_release_strips_v() {
    let info = evaluate_release("v0.5.0", "https://x/releases/v0.5.0", "0.4.9")
        .expect("a newer release must be reported");
    assert_eq!(info.version, "0.5.0");
    assert_eq!(info.url, "https://x/releases/v0.5.0");
}

#[test]
fn test_evaluate_release_strips_only_one_v() {
    assert!(evaluate_release("vv1.0", "u", "0.0.1").is_none());
    let info = evaluate_release("1.1", "u", "1.0").expect("bare tags are compared as they are");
    assert_eq!(info.version, "1.1");
}

#[test]
fn test_evaluate_release_not_newer() {
    assert!(evaluate_release("v0.4.9", "u", "0.4.9").is_none());
    assert!(evaluate_release("v0.4.0", "u", "0.4.9").is_none());
}

#[test]
fn test_release_endpoint() {
    assert_eq!(
        release_endpoint("TekSiDoT/tokentorch"),
        "https://api.github.com/repos/TekSiDoT/tokentorch/releases/latest"
    );
}

#[test]
fn test_check_response_reports_newer_release() {
    let body = "{\"tag_name\": \"v0.5.0\", \"html_url\": \"https://x/releases/v0.5.0\"}";
    let info = check_response(200, body, "0.4.9").expect("a newer release must be reported");
    assert_eq!(info.version, "0.5.0");
    assert_eq!(info.url, "https://x/releases/v0.5.0");
}

#[test]
fn test_check_response_ignores_extra_fields() {
    let body = "{\"id\": 7, \"tag_name\": \"v2.0.0\", \"html_url\": \"https://x/r\", \"draft\": false}";
    let info = check_response(200, body, "1.9.9").expect("a newer release must be reported");
    assert_eq!(info.version, "2.0.0");
    assert_eq!(info.url, "https://x/r");
}

#[test]
fn test_check_response_not_newer_yields_nothing() {
    let body = "{\"tag_name\": \"v0.4.9\", \"html_url\": \"https://x/releases/v0.4.9\"}";
    assert!(check_response(200, body, "0.4.9").is_none());
    assert!(check_response(200, body, "0.5.0").is_none());
}

#[test]
fn test_check_response_failure_status_yields_nothing() {
    let body = "{\"tag_name\": \"v9.9.9\", \"html_url\": \"https://x/r\"}";
    assert!(check_response(404, body, "0.0.1").is_none());
    assert!(check_response(500, body, "0.0.1").is_none());
    assert!(check_response(301, body, "0.0.1").is_none());
    assert!(status_success(200));
    assert!(status_success(299));
    assert!(!status_success(199));
    assert!(!status_success(300));
    assert!(!status_success(404));
}

#[test]
fn test_check_response_missing_tag_name_yields_nothing() {
    assert!(check_response(200, "{\"html_url\": \"https://x/r\"}", "0.0.1").is_none());
    assert!(check_response_body("{\"html_url\": \"https://x/r\"}", "0.0.1").is_none());
}

#[test]
fn test_check_response_malformed_body_yields_nothing() {
    assert!(check_response(200, "", "0.0.1").is_none());
    assert!(check_response(200, "not json", "0.0.1").is_none());
    assert!(check_response(200, "{\"tag_name\": 5, \"html_url\": \"u\"}", "0.0.1").is_none());
    assert!(check_response(200, "{\"tag_name\": \"v9.9.9\"}", "0.0.1").is_none());
    assert!(check_response(200, "[\"v9.9.9\"]", "0.0.1").is_none());
}
