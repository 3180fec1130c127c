use ars::config::{KeycloakConfig, SrvConfig, DEFAULT_PORT};

fn text(value: &str) -> Option<String> {
    Some(value.to_string())
}

#[test]
fn default_port_is_8000() {
    assert_eq!(DEFAULT_PORT, 8000);
}

#[test]
fn nothing_configured_gives_the_defaults() {
    let cfg = SrvConfig::resolve(None, None, None, None, "demo.ars".to_string(), DEFAULT_PORT);
    assert_eq!(cfg.address(), "0.0.0.0:8000");
    assert_eq!(cfg.public_url(), "http://0.0.0.0:8000");
    assert_eq!(cfg.asset_package(), "demo.ars");
}

#[test]
fn host_and_port_make_the_address() {
    let cfg = SrvConfig::resolve(text("localhost"), Some(80), None, None, String::new(), 8000);
    assert_eq!(cfg.address(), "localhost:80");
    assert_eq!(cfg.public_url(), "http://localhost:80");
}

#[test]
fn missing_port_is_the_default_that_is_given() {
    let cfg = SrvConfig::resolve(text("::1"), None, None, None, String::new(), 3000);
    assert_eq!(cfg.address(), "::1:3000");
}

#[test]
fn port_is_written_in_decimal() {
    for (port, digits) in [(0u16, "0"), (7, "7"), (10, "10"), (443, "443"), (65535, "65535")] {
        let cfg = SrvConfig::resolve(text("h"), Some(port), None, None, String::new(), 1);
        assert_eq!(cfg.address(), format!("h:{}", digits));
    }
}

#[test]
fn configured_address_wins_over_host_and_port() {
    let cfg = SrvConfig::resolve(
        text("localhost"),
        Some(80),
        text("127.0.0.1:9000"),
        None,
        String::new(),
        8000,
    );
    assert_eq!(cfg.address(), "127.0.0.1:9000");
    assert_eq!(cfg.public_url(), "http://127.0.0.1:9000");
}

#[test]
fn configured_public_url_wins_over_the_address() {
    let cfg = SrvConfig::resolve(
        None,
        None,
        None,
        text("https://example.com"),
        "/srv/site.ars".to_string(),
        8000,
    );
    assert_eq!(cfg.address(), "0.0.0.0:8000");
    assert_eq!(cfg.public_url(), "https://example.com");
    assert_eq!(cfg.asset_package(), "/srv/site.ars");
}

#[test]
fn keycloak_config_holds_three_optional_texts() {
    let cfg = KeycloakConfig {
        keycloak_url: text("https://id.example.com"),
        keycloak_client_id: None,
        keycloak_realm: text("main"),
    };
    assert_eq!(cfg.clone(), cfg);
    assert_eq!(cfg.keycloak_client_id, None);
}
