//! Tests of the web UI's deciding parts and the CLI text.

use whichway::model::{LookupResult, Resolver, ResolverScope, Section, Summary};
use whichway::report::{domain_column, failed_sections, resolved_text, route_text};
use whichway::web::{
    asset_path_allowed,
    generate_token, guess_content_type, hex_encode, html_escape, inject_token, token_authorized,
};

#[test]
fn html_escape_replaces_specials() {
    assert_eq!(html_escape("a&b<c>d\"e'f"), "a&amp;b&lt;c&gt;d&quot;e'f");
    assert_eq!(html_escape(""), "");
    assert_eq!(html_escape("&amp;"), "&amp;amp;");
}

#[test]
fn inject_token_replaces_first_placeholder() {
    let html = b"<head><!--TOKEN--></head><!--TOKEN-->";
    let out = inject_token(html, "abc\"<");
    assert_eq!(
        String::from_utf8(out).unwrap(),
        "<head><meta name=\"whichway-token\" content=\"abc&quot;&lt;\"></head><!--TOKEN-->"
    );
    let plain = b"<html>no placeholder</html>";
    assert_eq!(inject_token(plain, "t"), plain.to_vec());
    assert_eq!(inject_token(b"<!--TOKEN", "t"), b"<!--TOKEN".to_vec());
}

#[test]
fn content_types_by_extension() {
    assert_eq!(guess_content_type("index.html"), "text/html; charset=utf-8");
    assert_eq!(guess_content_type("app.min.js"), "application/javascript; charset=utf-8");
    assert_eq!(guess_content_type("style.css"), "text/css; charset=utf-8");
    assert_eq!(guess_content_type("logo.svg"), "image/svg+xml");
    assert_eq!(guess_content_type("icon.png"), "image/png");
    assert_eq!(guess_content_type("data.json"), "application/json");
    assert_eq!(guess_content_type("README"), "application/octet-stream");
    assert_eq!(guess_content_type("html"), "text/html; charset=utf-8");
    assert_eq!(guess_content_type("a.HTML"), "application/octet-stream");
}

#[test]
fn token_check_header_first() {
    assert!(token_authorized(Some("t0k"), None, "t0k"));
    assert!(token_authorized(None, Some("t0k"), "t0k"));
    assert!(!token_authorized(None, None, "t0k"));
    assert!(!token_authorized(Some("bad"), Some("t0k"), "t0k"));
    assert!(token_authorized(Some("t0k"), Some("bad"), "t0k"));
    assert!(!token_authorized(None, Some(""), "t0k"));
}

#[test]
fn asset_paths_refuse_parent_steps() {
    assert!(asset_path_allowed("app.js"));
    assert!(asset_path_allowed("css/site.css"));
    assert!(!asset_path_allowed("../secret"));
    assert!(!asset_path_allowed("a/..b"));
}

#[test]
fn tokens_are_48_hex_chars() {
    let a = generate_token().expect("the OS random source works here");
    let b = generate_token().expect("the OS random source works here");
    assert_eq!(a.len(), 48);
    assert!(a.chars().all(|c| c.is_ascii_hexdigit() && !c.is_ascii_uppercase()));
    assert_ne!(a, b);
    assert_eq!(hex_encode(&[0x00, 0x0f, 0xa5, 0xff]), "000fa5ff");
}

fn lookup_result() -> LookupResult {
    LookupResult {
        target: "private.corp.example".to_string(),
        resolved: vec!["10.20.30.40".to_string(), "10.20.30.41".to_string()],
        resolver_number: Some(3),
        resolver_match: Some("corp.example".to_string()),
        resolver_nameservers: vec!["10.0.0.53".to_string(), "10.0.0.54".to_string()],
        interface: Some("utun4".to_string()),
        gateway: Some("link#42".to_string()),
        destination: Some("10.20.30.0/24".to_string()),
        flags: None,
        label: Some("Zscaler".to_string()),
        verdict: String::new(),
    }
}

#[test]
fn lookup_lines() {
    let l = lookup_result();
    assert_eq!(
        resolved_text(&l),
        "10.20.30.40, 10.20.30.41 (via resolver #3, domain match: corp.example, ns: 10.0.0.53,10.0.0.54)"
    );
    assert_eq!(route_text(&l), "10.20.30.0/24 \u{2192} utun4 (Zscaler)");
    let mut m = lookup_result();
    m.resolver_match = None;
    m.resolver_nameservers.clear();
    m.label = None;
    assert_eq!(resolved_text(&m), "10.20.30.40, 10.20.30.41 (via resolver #3)");
    assert_eq!(route_text(&m), "10.20.30.0/24 \u{2192} utun4");
    m.resolver_number = None;
    assert_eq!(resolved_text(&m), "10.20.30.40, 10.20.30.41");
    m.resolved.clear();
    m.destination = None;
    assert_eq!(resolved_text(&m), "(no answer)");
    assert_eq!(route_text(&m), "(no route)");
}

fn resolver() -> Resolver {
    Resolver {
        number: 1,
        scope: ResolverScope::Scoped,
        nameservers: Vec::new(),
        search: vec!["a.example".to_string(), "b.example".to_string()],
        domain: None,
        if_index: None,
        interface: None,
        flags: None,
        order: None,
        options: None,
    }
}

#[test]
fn dns_domain_column() {
    let mut r = resolver();
    assert_eq!(domain_column(&r), "a.example,b.example");
    r.domain = Some("local".to_string());
    assert_eq!(domain_column(&r), "local");
    r.domain = None;
    r.search.clear();
    assert_eq!(domain_column(&r), "");
}

#[test]
fn footer_lists_failed_sections() {
    let s = Summary {
        collected_at: String::new(),
        platform: "macos",
        privileged: false,
        routes: Section::err("ipv4: x".to_string()),
        tunnels: Section::ok(Vec::new()),
        dns: Section::err("scutil --dns: y".to_string()),
        services: Section::ok(whichway::model::NetworkInfo { order: Vec::new(), services: Vec::new() }),
        pf: Section::requires_root(),
    };
    let f = failed_sections(&s);
    assert_eq!(
        f,
        vec![
            ("routes".to_string(), "ipv4: x".to_string()),
            ("dns".to_string(), "scutil --dns: y".to_string())
        ]
    );
    let s = Summary { privileged: true, ..s };
    assert_eq!(failed_sections(&s).len(), 3);
}
