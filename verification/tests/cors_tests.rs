use apollo_kit::cors::{
    CorsConfig, CorsConfigError, CorsMode, CorsRequest, HeaderEntry, TrustedOriginsCors,
};

fn config() -> CorsConfig {
    CorsConfig {
        trusted_origins: None,
        allow_any_origin: false,
        methods: vec!["GET".to_string(), "POST".to_string(), "OPTIONS".to_string()],
        allow_headers: vec![],
        expose_headers: None,
        max_age_secs: None,
    }
}

fn trusted(origins: &[&str]) -> CorsConfig {
    let mut c = config();
    c.trusted_origins = Some(origins.iter().map(|s| s.to_string()).collect());
    c
}

fn header<'a>(entries: &'a [HeaderEntry], name: &str) -> Option<&'a [u8]> {
    entries.iter().find(|e| e.name == name).map(|e| e.value.as_slice())
}

fn get(origin: &str) -> CorsRequest {
    CorsRequest { is_options: false, origin: Some(origin.as_bytes().to_vec()), requested_headers: None }
}

fn preflight(origin: &str) -> CorsRequest {
    CorsRequest { is_options: true, origin: Some(origin.as_bytes().to_vec()), requested_headers: None }
}

#[test]
fn test_cors_plugin_trusted_origins_trusted_domain() {
    let cors = TrustedOriginsCors::new(trusted(&["https://trusted.com"]));
    let request = get("https://trusted.com");
    assert!(cors.preflight_headers(&request).is_none());
    let headers = cors.response_headers(&request.origin);
    assert_eq!(header(&headers, "access-control-allow-origin").unwrap(), b"https://trusted.com");
    assert_eq!(header(&headers, "access-control-allow-credentials").unwrap(), b"true");
}

#[test]
fn test_cors_plugin_trusted_origins_untrusted_domain() {
    let cors = TrustedOriginsCors::new(trusted(&["https://trusted.com"]));
    let request = get("https://untrusted.com");
    let headers = cors.response_headers(&request.origin);
    assert_eq!(header(&headers, "access-control-allow-origin").unwrap(), b"*");
    assert!(header(&headers, "access-control-allow-credentials").is_none());
}

#[test]
fn test_cors_plugin_trusted_origins_preflight_trusted() {
    let cors = TrustedOriginsCors::new(trusted(&["https://trusted.com"]));
    let headers = cors.preflight_headers(&preflight("https://trusted.com")).unwrap();
    assert_eq!(header(&headers, "access-control-allow-origin").unwrap(), b"https://trusted.com");
    assert_eq!(header(&headers, "access-control-allow-credentials").unwrap(), b"true");
    assert!(header(&headers, "access-control-allow-methods").is_some());
}

#[test]
fn test_cors_plugin_trusted_origins_preflight_untrusted() {
    let cors = TrustedOriginsCors::new(trusted(&["https://trusted.com"]));
    let headers = cors.preflight_headers(&preflight("https://untrusted.com")).unwrap();
    assert_eq!(header(&headers, "access-control-allow-origin").unwrap(), b"*");
    assert!(header(&headers, "access-control-allow-credentials").is_none());
    assert!(header(&headers, "access-control-allow-methods").is_some());
}

#[test]
fn test_cors_plugin_trusted_origins_expose_headers() {
    let mut c = trusted(&["https://trusted.com"]);
    c.expose_headers = Some(vec!["x-custom-header".to_string()]);
    let cors = TrustedOriginsCors::new(c);
    let headers = cors.response_headers(&get("https://trusted.com").origin);
    let expose = header(&headers, "access-control-expose-headers").unwrap();
    assert!(std::str::from_utf8(expose).unwrap().contains("x-custom-header"));
}

#[test]
fn preflight_answer_in_full() {
    let mut c = trusted(&["https://app.mycompany.com"]);
    c.allow_headers = vec!["content-type".to_string(), "authorization".to_string()];
    c.max_age_secs = Some(86400);
    let cors = TrustedOriginsCors::new(c);
    let headers = cors.preflight_headers(&preflight("https://app.mycompany.com")).unwrap();
    let names: Vec<&str> = headers.iter().map(|e| e.name.as_str()).collect();
    assert_eq!(
        names,
        vec![
            "access-control-allow-origin",
            "access-control-allow-credentials",
            "access-control-allow-methods",
            "access-control-allow-headers",
            "access-control-max-age",
        ]
    );
    assert_eq!(header(&headers, "access-control-allow-methods").unwrap(), b"GET, POST, OPTIONS");
    assert_eq!(header(&headers, "access-control-allow-headers").unwrap(), b"content-type, authorization");
    assert_eq!(header(&headers, "access-control-max-age").unwrap(), b"86400");
}

#[test]
fn preflight_echoes_requested_headers_when_none_configured() {
    let cors = TrustedOriginsCors::new(trusted(&["https://trusted.com"]));
    let mut request = preflight("https://untrusted.com");
    request.requested_headers = Some(b"content-type".to_vec());
    let headers = cors.preflight_headers(&request).unwrap();
    assert_eq!(header(&headers, "access-control-allow-headers").unwrap(), b"content-type");
    assert!(header(&headers, "access-control-max-age").is_none());
}

#[test]
fn preflight_without_requested_headers_sets_none() {
    let cors = TrustedOriginsCors::new(trusted(&["https://trusted.com"]));
    let headers = cors.preflight_headers(&preflight("https://trusted.com")).unwrap();
    assert!(header(&headers, "access-control-allow-headers").is_none());
}

#[test]
fn preflight_needs_options_and_a_text_origin() {
    let cors = TrustedOriginsCors::new(trusted(&["https://trusted.com"]));
    let no_origin = CorsRequest { is_options: true, origin: None, requested_headers: None };
    assert!(cors.preflight_headers(&no_origin).is_none());
    let binary_origin = CorsRequest { is_options: true, origin: Some(vec![0x68, 0xff]), requested_headers: None };
    assert!(cors.preflight_headers(&binary_origin).is_none());
    assert!(cors.preflight_headers(&get("https://trusted.com")).is_none());
}

#[test]
fn invalid_method_list_falls_back() {
    let mut c = trusted(&["https://trusted.com"]);
    c.methods = vec!["GET\n".to_string()];
    c.allow_headers = vec!["bad\u{7f}".to_string()];
    let cors = TrustedOriginsCors::new(c);
    let headers = cors.preflight_headers(&preflight("https://trusted.com")).unwrap();
    assert_eq!(header(&headers, "access-control-allow-methods").unwrap(), b"GET, POST, OPTIONS");
    assert_eq!(header(&headers, "access-control-allow-headers").unwrap(), b"*");
}

#[test]
fn response_without_origin_allows_any() {
    let mut c = trusted(&["https://trusted.com"]);
    c.expose_headers = Some(vec!["x-custom-header".to_string()]);
    let cors = TrustedOriginsCors::new(c);
    let headers = cors.response_headers(&None);
    assert_eq!(headers.len(), 1);
    assert_eq!(header(&headers, "access-control-allow-origin").unwrap(), b"*");
}

#[test]
fn response_exposes_headers_for_untrusted_origins_too() {
    let mut c = trusted(&["https://trusted.com"]);
    c.expose_headers = Some(vec!["x-custom-header".to_string(), "x-another-header".to_string()]);
    let cors = TrustedOriginsCors::new(c);
    let headers = cors.response_headers(&get("https://example.com").origin);
    assert_eq!(header(&headers, "access-control-allow-origin").unwrap(), b"*");
    assert_eq!(header(&headers, "access-control-expose-headers").unwrap(), b"x-custom-header, x-another-header");
}

#[test]
fn empty_or_invalid_expose_list_is_skipped() {
    let mut c = trusted(&["https://trusted.com"]);
    c.expose_headers = Some(vec![]);
    let cors = TrustedOriginsCors::new(c);
    assert!(header(&cors.response_headers(&get("https://trusted.com").origin), "access-control-expose-headers").is_none());
    let mut c = trusted(&["https://trusted.com"]);
    c.expose_headers = Some(vec!["x\u{0}".to_string()]);
    let cors = TrustedOriginsCors::new(c);
    assert!(header(&cors.response_headers(&get("https://trusted.com").origin), "access-control-expose-headers").is_none());
}

#[test]
fn trusted_origin_matching_is_exact() {
    let cors = TrustedOriginsCors::new(trusted(&["https://a.com", "https://b.com"]));
    assert!(cors.is_trusted_origin("https://b.com"));
    assert!(!cors.is_trusted_origin("https://b.com/"));
    assert!(!cors.is_trusted_origin("https://c.com"));
    let none = TrustedOriginsCors::new(config());
    assert!(!none.is_trusted_origin("https://a.com"));
}

#[test]
fn mode_follows_trusted_origins() {
    assert_eq!(config().mode(), CorsMode::Standard);
    assert_eq!(trusted(&[]).mode(), CorsMode::Standard);
    assert_eq!(trusted(&["https://trusted.com"]).mode(), CorsMode::TrustedOrigins);
    assert!(trusted(&["https://trusted.com"]).has_trusted_origins());
}

#[test]
fn trusted_origin_configuration_checks() {
    assert_eq!(trusted(&["https://trusted.com"]).check_trusted_origins(), Ok(()));
    let mut any = trusted(&["https://trusted.com"]);
    any.allow_any_origin = true;
    assert_eq!(any.check_trusted_origins(), Err(CorsConfigError::TrustedOriginsWithAnyOrigin));
    assert_eq!(trusted(&["*"]).check_trusted_origins(), Err(CorsConfigError::WildcardTrustedOrigin));
    let mut plain = config();
    plain.allow_any_origin = true;
    assert_eq!(plain.check_trusted_origins(), Ok(()));
}

#[test]
fn every_value_makes_a_header_value() {
    let mut c = trusted(&["https://trusted.com"]);
    c.max_age_secs = Some(3600);
    c.expose_headers = Some(vec!["x-one".to_string()]);
    let cors = TrustedOriginsCors::new(c);
    for origin in ["https://trusted.com", "https://other.com"] {
        for e in cors.preflight_headers(&preflight(origin)).unwrap() {
            assert!(http::HeaderValue::from_bytes(&e.value).is_ok());
            assert!(http::HeaderName::from_bytes(e.name.as_bytes()).is_ok());
        }
        for e in cors.response_headers(&get(origin).origin) {
            assert!(http::HeaderValue::from_bytes(&e.value).is_ok());
        }
    }
}

fn readme_config() -> CorsConfig {
    let mut c = trusted(&[
        "https://app.mycompany.com",
        "https://admin.mycompany.com",
        "https://dashboard.mycompany.com",
    ]);
    c.allow_headers = vec![
        "content-type".to_string(),
        "authorization".to_string(),
        "x-apollo-operation-name".to_string(),
    ];
    c.expose_headers = Some(vec!["x-custom-header".to_string()]);
    c.max_age_secs = Some(86400);
    c
}

fn readme_preflight(origin: &str) -> CorsRequest {
    CorsRequest {
        is_options: true,
        origin: Some(origin.as_bytes().to_vec()),
        requested_headers: Some(b"content-type".to_vec()),
    }
}

#[test]
fn readme_trusted_origin_preflight() {
    let cors = TrustedOriginsCors::new(readme_config());
    let headers = cors.preflight_headers(&readme_preflight("https://app.mycompany.com")).unwrap();
    assert_eq!(header(&headers, "access-control-allow-origin").unwrap(), b"https://app.mycompany.com");
    assert_eq!(header(&headers, "access-control-allow-credentials").unwrap(), b"true");
    assert_eq!(header(&headers, "access-control-allow-methods").unwrap(), b"GET, POST, OPTIONS");
    assert_eq!(header(&headers, "access-control-allow-headers").unwrap(), b"content-type");
    assert_eq!(header(&headers, "access-control-max-age").unwrap(), b"86400");
}

#[test]
fn readme_untrusted_origin_preflight() {
    let cors = TrustedOriginsCors::new(readme_config());
    let headers = cors.preflight_headers(&readme_preflight("https://untrusted.com")).unwrap();
    assert_eq!(header(&headers, "access-control-allow-origin").unwrap(), b"*");
    assert!(header(&headers, "access-control-allow-credentials").is_none());
    assert_eq!(header(&headers, "access-control-allow-methods").unwrap(), b"GET, POST, OPTIONS");
    assert_eq!(header(&headers, "access-control-allow-headers").unwrap(), b"content-type");
    assert_eq!(header(&headers, "access-control-max-age").unwrap(), b"86400");
}

#[test]
fn readme_trusted_and_untrusted_requests() {
    let cors = TrustedOriginsCors::new(readme_config());
    let headers = cors.response_headers(&get("https://app.mycompany.com").origin);
    assert_eq!(header(&headers, "access-control-allow-origin").unwrap(), b"https://app.mycompany.com");
    assert_eq!(header(&headers, "access-control-allow-credentials").unwrap(), b"true");
    assert_eq!(header(&headers, "access-control-expose-headers").unwrap(), b"x-custom-header");
    let headers = cors.response_headers(&get("https://example.com").origin);
    assert_eq!(header(&headers, "access-control-allow-origin").unwrap(), b"*");
    assert!(header(&headers, "access-control-allow-credentials").is_none());
    assert_eq!(header(&headers, "access-control-expose-headers").unwrap(), b"x-custom-header");
}
