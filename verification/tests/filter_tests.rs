use docker_guard::errors::ErrorKind;
use docker_guard::filters::{
    apply_filter, filter_env, inspect_filter, list_filter, Decision,
};
use docker_guard::http::{parse_http, Http, Request, Response};
use docker_guard::policy::{Config, FilterKind};
use docker_guard::upstream::UpstreamAddr;

fn config_with_env(names: &[&str]) -> Config {
    let env: Vec<Vec<u8>> = names.iter().map(|n| n.as_bytes().to_vec()).collect();
    Config::new(UpstreamAddr::Unix(b"/var/run/docker.sock".to_vec()), env)
}

fn req_head() -> Request {
    let head = b"GET /containers/abc/json HTTP/1.1\r\n\r\n".to_vec();
    match parse_http(&head).unwrap() {
        Http::Req(q) => q,
        Http::Res(_) => panic!("expected a request"),
    }
}

fn res_head(code_line: &str) -> Response {
    let head = format!("{}\r\n\r\n", code_line).into_bytes();
    match parse_http(&head).unwrap() {
        Http::Res(p) => p,
        Http::Req(_) => panic!("expected a response"),
    }
}

#[test]
fn inspect_redacts_env() {
    let config = config_with_env(&["PATH"]);
    let req = req_head();
    let res = res_head("HTTP/1.1 200 OK");
    let mut body = br#"{"Id":"abc","Name":"/c","State":{},"NetworkSettings":{},"Config":{"Env":["PATH=/usr/bin","SECRET=x"]}}"#
        .to_vec();
    let d = inspect_filter(&config, &req, &res, &mut body).unwrap();
    assert_eq!(d, Decision::Forward);
    let v: serde_json::Value = serde_json::from_slice(&body).unwrap();
    let env = v["Config"]["Env"].as_array().unwrap();
    assert_eq!(env.len(), 1);
    assert_eq!(env[0].as_str().unwrap(), "PATH=/usr/bin");
    let text = String::from_utf8(body.clone()).unwrap();
    assert!(!text.contains("SECRET"));
    assert_eq!(v["Id"].as_str().unwrap(), "abc");
    assert_eq!(v["Name"].as_str().unwrap(), "/c");
}

#[test]
fn inspect_all_redacted_omits_env_key() {
    let config = config_with_env(&[]);
    let req = req_head();
    let res = res_head("HTTP/1.1 200 OK");
    let mut body = br#"{"Id":"abc","Name":"/c","State":{},"NetworkSettings":{},"Config":{"Env":["PATH=/usr/bin","SECRET=x"]}}"#
        .to_vec();
    inspect_filter(&config, &req, &res, &mut body).unwrap();
    let v: serde_json::Value = serde_json::from_slice(&body).unwrap();
    assert!(v["Config"].as_object().unwrap().get("Env").is_none());
}

#[test]
fn inspect_twice_is_once() {
    let config = config_with_env(&["PATH", "HOME"]);
    let req = req_head();
    let res = res_head("HTTP/1.1 200 OK");
    let mut body = br#"{"Id":"abc","Name":"/c","State":{"Running":true},"NetworkSettings":{"IPAddress":"10.0.0.2"},"Config":{"Env":["PATH=/usr/bin","HOME=/root","SECRET=x"]}}"#
        .to_vec();
    inspect_filter(&config, &req, &res, &mut body).unwrap();
    let once = body.clone();
    inspect_filter(&config, &req, &res, &mut body).unwrap();
    assert_eq!(body, once);
}

#[test]
fn non_200_passes_through_untouched() {
    let config = config_with_env(&["PATH"]);
    let req = req_head();
    let res = res_head("HTTP/1.1 404 Not Found");
    let original = b"not json at all".to_vec();
    for kind in [FilterKind::Inspect, FilterKind::List, FilterKind::Info] {
        let mut body = original.clone();
        let d = apply_filter(kind, &config, &req, &res, &mut body).unwrap();
        assert_eq!(d, Decision::Forward);
        assert_eq!(body, original);
    }
}

#[test]
fn invalid_json_on_200_is_filter_error() {
    let config = config_with_env(&["PATH"]);
    let req = req_head();
    let res = res_head("HTTP/1.1 200 OK");
    for kind in [FilterKind::Inspect, FilterKind::List, FilterKind::Info] {
        let mut body = b"not json at all".to_vec();
        let err = apply_filter(kind, &config, &req, &res, &mut body).unwrap_err();
        assert_eq!(err.kind, ErrorKind::Filter);
        assert_eq!(body, b"not json at all".to_vec());
    }
}

#[test]
fn passthrough_leaves_body_alone() {
    let config = config_with_env(&[]);
    let req = req_head();
    let res = res_head("HTTP/1.1 200 OK");
    let mut body = b"whatever bytes".to_vec();
    let d = apply_filter(FilterKind::PassThrough, &config, &req, &res, &mut body).unwrap();
    assert_eq!(d, Decision::Forward);
    assert_eq!(body, b"whatever bytes".to_vec());
}

#[test]
fn list_keeps_only_three_fields() {
    let config = config_with_env(&[]);
    let req = req_head();
    let res = res_head("HTTP/1.1 200 OK");
    let mut body = br#"[{"Id":"a1","Created":111,"Status":"Up","Env":["SECRET=x"]},{"Id":"b2","Created":222,"Status":"Exited"}]"#
        .to_vec();
    let d = list_filter(&config, &req, &res, &mut body).unwrap();
    assert_eq!(d, Decision::Forward);
    let v: serde_json::Value = serde_json::from_slice(&body).unwrap();
    let arr = v.as_array().unwrap();
    assert_eq!(arr.len(), 2);
    assert_eq!(arr[0]["Id"].as_str().unwrap(), "a1");
    assert_eq!(arr[0]["Created"].as_i64().unwrap(), 111);
    assert_eq!(arr[0]["Status"].as_str().unwrap(), "Up");
    assert!(arr[0].get("Env").is_none());
    assert_eq!(arr[1]["Id"].as_str().unwrap(), "b2");
}

#[test]
fn list_of_non_array_becomes_empty_array() {
    let config = config_with_env(&[]);
    let req = req_head();
    let res = res_head("HTTP/1.1 200 OK");
    let mut body = br#"{"message":"oops"}"#.to_vec();
    list_filter(&config, &req, &res, &mut body).unwrap();
    assert_eq!(body, b"[]".to_vec());
}

#[test]
fn filter_env_keeps_exactly_allowed_entries() {
    let config = config_with_env(&["PATH", "TERM"]);
    let entries: Vec<Vec<u8>> = vec![
        b"PATH=/usr/bin".to_vec(),
        b"SECRET=x".to_vec(),
        b"TERM=xterm".to_vec(),
        b"PATH".to_vec(),     // no '=': dropped
        b"=oops".to_vec(),    // empty name: dropped
        b"TERM=".to_vec(),    // empty value: dropped
    ];
    let kept = filter_env(&config, &entries);
    assert_eq!(kept, vec![b"PATH=/usr/bin".to_vec(), b"TERM=xterm".to_vec()]);
    // filtering its own output changes nothing
    let again = filter_env(&config, &kept);
    assert_eq!(again, kept);
}

#[test]
fn info_keeps_fixed_fields_only() {
    let config = config_with_env(&[]);
    let req = req_head();
    let res = res_head("HTTP/1.1 200 OK");
    let mut body = br#"{"ID":"engine-1","Name":"host","Containers":3,"Images":9,"ServerVersion":"24.0","OperatingSystem":"Linux","RegistryConfig":{"secret":"x"}}"#
        .to_vec();
    apply_filter(FilterKind::Info, &config, &req, &res, &mut body).unwrap();
    let v: serde_json::Value = serde_json::from_slice(&body).unwrap();
    assert_eq!(v["ID"].as_str().unwrap(), "engine-1");
    assert_eq!(v["Containers"].as_i64().unwrap(), 3);
    assert!(v.get("RegistryConfig").is_none());
}
