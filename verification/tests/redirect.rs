use blog::redirect::{
    choose_site_addr, https_host, port_from_env, www_redirect_target, ListenChoice,
};

#[test]
fn www_hosts_redirect_to_the_bare_host() {
    assert_eq!(
        www_redirect_target("www.example.com", "/post/a?x=1"),
        Some("https://example.com/post/a?x=1".to_string())
    );
    assert_eq!(
        www_redirect_target("www.www.example.com", "/"),
        Some("https://example.com/".to_string())
    );
    assert_eq!(www_redirect_target("example.com", "/"), None);
    assert_eq!(www_redirect_target("wwwexample.com", "/"), None);
}

#[test]
fn https_host_swaps_the_port() {
    assert_eq!(https_host("localhost:8080", 8080, 4443), "localhost:4443");
    assert_eq!(https_host("example.com", 8080, 4443), "example.com");
    assert_eq!(https_host("8080.example:8080", 8080, 4443), "4443.example:4443");
    assert_eq!(https_host("h:80", 80, 443), "h:443");
}

#[test]
fn port_env_reads_like_u16_from_str() {
    assert_eq!(port_from_env(Some(" 8080 ")), Some(8080));
    assert_eq!(port_from_env(Some("+80")), Some(80));
    assert_eq!(port_from_env(Some("65535")), Some(65535));
    assert_eq!(port_from_env(Some("65536")), None);
    assert_eq!(port_from_env(Some("")), None);
    assert_eq!(port_from_env(Some("+")), None);
    assert_eq!(port_from_env(Some("-1")), None);
    assert_eq!(port_from_env(Some("80a")), None);
    assert_eq!(port_from_env(None), None);
    for raw in ["0", "007", "99999999999", "123"] {
        assert_eq!(port_from_env(Some(raw)), raw.parse::<u16>().ok());
    }
}

#[test]
fn site_addr_wins_then_port_then_config() {
    assert_eq!(choose_site_addr(true, Some("9000")), ListenChoice::SiteAddr);
    assert_eq!(choose_site_addr(false, Some("9000")), ListenChoice::AnyInterface(9000));
    assert_eq!(choose_site_addr(false, Some("  ")), ListenChoice::Configured);
    assert_eq!(choose_site_addr(false, None), ListenChoice::Configured);
}
