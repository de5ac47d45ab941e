use docker_guard::errors::ErrorKind;
use docker_guard::policy::{install_reference_policy, Config, FilterKind};
use docker_guard::upstream::{parse_upstream_uri, UpstreamAddr};

fn reference_config() -> Config {
    let mut config = Config::new(UpstreamAddr::Unix(b"/var/run/docker.sock".to_vec()), vec![]);
    install_reference_policy(&mut config).unwrap();
    config
}

#[test]
fn reference_policy_outcomes() {
    let config = reference_config();
    assert_eq!(config.match_http_path(b"/_ping"), Some(FilterKind::PassThrough));
    assert_eq!(config.match_http_path(b"/version"), Some(FilterKind::PassThrough));
    assert_eq!(config.match_http_path(b"/v1.37/version"), Some(FilterKind::PassThrough));
    assert_eq!(config.match_http_path(b"/info"), Some(FilterKind::Info));
    assert_eq!(config.match_http_path(b"/containers/json"), Some(FilterKind::List));
    assert_eq!(
        config.match_http_path(b"/v1.37/containers/json?all=1"),
        Some(FilterKind::List)
    );
    assert_eq!(
        config.match_http_path(b"/containers/abc12/json"),
        Some(FilterKind::Inspect)
    );
    assert_eq!(
        config.match_http_path(b"/v1.40/containers/abc12/json?size=1"),
        Some(FilterKind::Inspect)
    );
    // not on the allow-list
    assert_eq!(config.match_http_path(b"/containers/create"), None);
    assert_eq!(config.match_http_path(b"/images/json"), None);
    assert_eq!(config.match_http_path(b"/_pingX"), None);
}

#[test]
fn first_match_wins() {
    let mut config = Config::new(UpstreamAddr::Unix(b"/s".to_vec()), vec![]);
    config.filter_http_path("^/x$", FilterKind::List).unwrap();
    config.filter_http_path("^/x$", FilterKind::Inspect).unwrap();
    assert_eq!(config.match_http_path(b"/x"), Some(FilterKind::List));
}

#[test]
fn invalid_pattern_is_config_error() {
    let mut config = Config::new(UpstreamAddr::Unix(b"/s".to_vec()), vec![]);
    let err = config.allow_http_path("(unclosed").unwrap_err();
    assert_eq!(err.kind, ErrorKind::Config);
    assert_eq!(config.match_http_path(b"/anything"), None);
}

#[test]
fn whitelisted_env_lookup() {
    let config = Config::new(
        UpstreamAddr::Unix(b"/s".to_vec()),
        vec![b"PATH".to_vec(), b"HOME".to_vec()],
    );
    assert!(config.whitelisted_env(b"PATH"));
    assert!(config.whitelisted_env(b"HOME"));
    assert!(!config.whitelisted_env(b"SECRET"));
    assert!(!config.whitelisted_env(b"PAT"));
}

#[test]
fn upstream_unix_forms() {
    match parse_upstream_uri("unix:///var/run/other.sock").unwrap() {
        UpstreamAddr::Unix(p) => assert_eq!(p, b"/var/run/other.sock".to_vec()),
        _ => panic!("expected a unix address"),
    }
    match parse_upstream_uri("unix:///").unwrap() {
        UpstreamAddr::Unix(p) => assert_eq!(p, b"/var/run/docker.sock".to_vec()),
        _ => panic!("expected a unix address"),
    }
    match parse_upstream_uri("unix://").unwrap() {
        UpstreamAddr::Unix(p) => assert_eq!(p, b"/var/run/docker.sock".to_vec()),
        _ => panic!("expected a unix address"),
    }
}

#[test]
fn upstream_tcp_forms() {
    match parse_upstream_uri("tcp://10.0.0.5:4243").unwrap() {
        UpstreamAddr::Tcp(h, p) => {
            assert_eq!(h, b"10.0.0.5".to_vec());
            assert_eq!(p, 4243);
        }
        _ => panic!("expected a tcp address"),
    }
    match parse_upstream_uri("tcp://example.test").unwrap() {
        UpstreamAddr::Tcp(h, p) => {
            assert_eq!(h, b"example.test".to_vec());
            assert_eq!(p, 2375);
        }
        _ => panic!("expected a tcp address"),
    }
    match parse_upstream_uri("tcp://:8080").unwrap() {
        UpstreamAddr::Tcp(h, p) => {
            assert_eq!(h, b"127.0.0.1".to_vec());
            assert_eq!(p, 8080);
        }
        _ => panic!("expected a tcp address"),
    }
}

#[test]
fn upstream_rejects_other_schemes_and_bad_ports() {
    assert_eq!(
        parse_upstream_uri("http://example.test").unwrap_err().kind,
        ErrorKind::Config
    );
    assert_eq!(
        parse_upstream_uri("tcp://h:99999").unwrap_err().kind,
        ErrorKind::Config
    );
    assert_eq!(
        parse_upstream_uri("tcp://h:12x").unwrap_err().kind,
        ErrorKind::Config
    );
}

#[test]
fn upstream_tcp_bracketed_host() {
    match parse_upstream_uri("tcp://[::1]:2375").unwrap() {
        UpstreamAddr::Tcp(h, p) => {
            assert_eq!(h, b"::1".to_vec());
            assert_eq!(p, 2375);
        }
        _ => panic!("expected a tcp address"),
    }
    match parse_upstream_uri("tcp://[fe80::1]").unwrap() {
        UpstreamAddr::Tcp(h, p) => {
            assert_eq!(h, b"fe80::1".to_vec());
            assert_eq!(p, 2375);
        }
        _ => panic!("expected a tcp address"),
    }
    assert_eq!(
        parse_upstream_uri("tcp://[::1").unwrap_err().kind,
        ErrorKind::Config
    );
    assert_eq!(
        parse_upstream_uri("tcp://[::1]x").unwrap_err().kind,
        ErrorKind::Config
    );
}
