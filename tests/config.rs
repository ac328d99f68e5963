use lol_horses::config::parse_client_args;

fn args(items: &[&str]) -> Vec<String> {
    items.iter().map(|s| s.to_string()).collect()
}

#[test]
fn reads_port_and_token() {
    let c = parse_client_args(&args(&[
        "LeagueClientUx.exe",
        "--remoting-auth-token=SECRET-REDACTED",
        "--app-port=51234",
        "--locale=en_US",
    ]))
    .unwrap();
    assert_eq!(c.port, "51234");
    assert_eq!(c.token, "SECRET-REDACTED");
}

#[test]
fn last_option_wins() {
    let c = parse_client_args(&args(&["--app-port=1", "--remoting-auth-token=t", "--app-port=2"]))
        .unwrap();
    assert_eq!(c.port, "2");
    assert_eq!(c.token, "t");
}

#[test]
fn missing_option_is_refused() {
    assert!(parse_client_args(&args(&[])).is_none());
    assert!(parse_client_args(&args(&["--app-port=1"])).is_none());
    assert!(parse_client_args(&args(&["--remoting-auth-token=t", "x--app-port=1"])).is_none());
}
