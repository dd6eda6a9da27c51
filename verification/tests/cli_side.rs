use vyse::config::{no_subdomain_message, Config, ConfigFile, Subdomain};
use vyse::identity::{
    derive_machine_id, generate_random_raw, hash_id, linux_machine_id, macos_platform_uuid,
    windows_machine_guid,
};
use vyse::protocol::{ControlMessage, Route};
use vyse::replay::{no_capture_message, replay_method, replay_request, replayed_line};
use vyse::store::{
    body_of, body_with_length, capture, capture_parts, expired, headers_only, row_line,
    show_newest, LoggedRequest, MAX_ROWS, MAX_SHOWN,
};
use vyse::tunnel::{
    banner, edge_hostname, format_public_url, keep_alive, notice_step, parse_routes,
    preferred_address, registration, tls_server_name, KeepAliveAction, KeepAliveEvent, NoticeStep,
    Registration, TunnelOptions,
};
use vyse::update::{
    cargo_build_message, check_status, is_cargo_target_path, newer_tag, update_available,
    update_notice, update_status,
};

fn config(subdomain: Option<&str>, machine_id: Option<&str>) -> Config {
    let data = ConfigFile {
        subdomain: subdomain.map(str::to_string),
        machine_id: machine_id.map(str::to_string),
        last_update_check: None,
    };
    Config::from_file("config.toml".to_string(), data)
}

fn reloaded(config: &Config) -> Config {
    Config::from_file(config.path().to_string(), config.data())
}

fn settled(answer: Result<Subdomain, String>) -> (String, bool) {
    match answer {
        Ok(Subdomain::Settled { name, save }) => (name, save),
        _ => panic!("the subdomain is not settled"),
    }
}

#[test]
fn settings_are_kept_as_they_are() {
    let fresh = Config::from_file("config.toml".to_string(), ConfigFile::default());
    assert_eq!(fresh.subdomain(), None);
    assert_eq!(fresh.path(), "config.toml");
    let kept = reloaded(&config(Some("my-app"), Some("abc123")));
    assert_eq!(kept.subdomain(), Some("my-app"));
    assert_eq!(kept.data().machine_id.as_deref(), Some("abc123"));
}

#[test]
fn ensure_subdomain_explicit_overwrites_existing() {
    let mut config = config(Some("old-name"), None);
    let (subdomain, save) = settled(config.ensure_subdomain(Some("new-name".into())));
    assert_eq!(subdomain, "new-name");
    assert!(save);
    assert_eq!(reloaded(&config).subdomain(), Some("new-name"));
}

#[test]
fn ensure_subdomain_omitted_keeps_existing() {
    let mut config = config(Some("saved-name"), None);
    let (subdomain, save) = settled(config.ensure_subdomain(None));
    assert_eq!(subdomain, "saved-name");
    assert!(!save);
    assert_eq!(reloaded(&config).subdomain(), Some("saved-name"));
}

#[test]
fn last_update_check_defaults_and_persists() {
    let now = 1_700_000_000;
    let mut config = config(None, None);
    assert!(config.should_check_updates(now));
    assert_eq!(config.data().last_update_check, None);

    config.record_update_check(now);
    let loaded = reloaded(&config);
    assert!(loaded.data().last_update_check.is_some());
    assert!(!loaded.should_check_updates(now));
}

#[test]
fn updates_are_looked_for_once_a_day() {
    let mut config = config(None, None);
    config.record_update_check(1000);
    assert!(!config.should_check_updates(1000 + 86399));
    assert!(config.should_check_updates(1000 + 86400));
    assert!(!config.should_check_updates(0));
    config.record_update_check(i64::MIN);
    assert!(config.should_check_updates(i64::MAX));
    config.record_update_check(i64::MAX);
    assert!(!config.should_check_updates(i64::MIN));
}

#[test]
fn ensure_subdomain_explicit_validates_and_persists() {
    let mut config = config(None, None);
    let (subdomain, _) = settled(config.ensure_subdomain(Some("My-App".into())));
    assert_eq!(subdomain, "my-app");
    assert_eq!(reloaded(&config).subdomain(), Some("my-app"));
}

#[test]
fn ensure_subdomain_rejects_invalid() {
    let mut config = config(None, None);
    let err = config.ensure_subdomain(Some("-bad".into())).err().unwrap();
    assert!(err.to_string().contains("hyphen"));
    assert_eq!(config.subdomain(), None);
}

#[test]
fn ensure_subdomain_non_tty_without_config_fails() {
    let mut config = config(None, None);
    assert!(matches!(config.ensure_subdomain(None), Ok(Subdomain::Ask)));
    assert!(no_subdomain_message().contains("--subdomain"));
}

#[test]
fn typed_subdomains_are_trimmed() {
    let mut config = config(None, None);
    assert_eq!(config.choose_subdomain("  My-App\n"), Ok("my-app".to_string()));
    assert_eq!(config.subdomain(), Some("my-app"));
    assert!(config.choose_subdomain(" \n").is_err());
    assert_eq!(config.subdomain(), Some("my-app"));
}

#[test]
fn machine_id_persists_generated_value() {
    let mut config = config(None, None);
    let (first, save) = config.machine_id(None);
    assert!(save);
    assert_eq!(first.len(), 64);
    assert!(first.chars().all(|c| c.is_ascii_hexdigit() && !c.is_uppercase()));

    let mut reloaded = reloaded(&config);
    let (second, save) = reloaded.machine_id(Some("other".to_string()));
    assert_eq!(first, second);
    assert!(!save);
}

#[test]
fn hash_id_is_stable_and_lowercase() {
    let a = hash_id("test-hardware-id");
    let b = hash_id("test-hardware-id");
    assert_eq!(a, b);
    assert_eq!(a.len(), 64);
    assert!(!a.chars().any(|c| c.is_ascii_uppercase()));
}

#[test]
fn hash_id_is_sha_256() {
    assert_eq!(
        hash_id("abc"),
        "ba7816bf8f01cfea414140de5dae2223b00361a396177a9cb410ff61f20015ad"
    );
    assert_eq!(derive_machine_id(Some("abc".to_string())), hash_id("abc"));
    assert_ne!(derive_machine_id(None), derive_machine_id(None));
    let raw = generate_random_raw();
    assert_eq!(raw.len(), 64);
    assert_ne!(raw, "0".repeat(64));
}

#[test]
fn hardware_ids_of_the_platforms() {
    let ioreg = "+-o J <class X>\n  {\n    \"IOPlatformUUID\" = \" 12-AB \"\n    \"x\" = 1\n";
    assert_eq!(macos_platform_uuid(ioreg).as_deref(), Some("12-AB"));
    assert_eq!(macos_platform_uuid("\"IOPlatformUUID\" = 5\n"), None);
    assert_eq!(macos_platform_uuid(""), None);
    let reg = "\r\nHKEY_LOCAL_MACHINE\r\n    MachineGuid    REG_SZ    11-22  \r\n";
    assert_eq!(windows_machine_guid(reg).as_deref(), Some("11-22"));
    assert_eq!(windows_machine_guid("nothing"), None);
    assert_eq!(linux_machine_id(" abc\n").as_deref(), Some("abc"));
    assert_eq!(linux_machine_id("\n"), None);
}

#[test]
fn edge_hostname_splits_host_port() {
    assert_eq!(edge_hostname("vyse.chipling.xyz:4433"), "vyse.chipling.xyz");
    assert_eq!(edge_hostname("127.0.0.1:4433"), "127.0.0.1");
    assert_eq!(edge_hostname("[::1]:4433"), "::1");
}

#[test]
fn edge_hostnames_without_a_port() {
    assert_eq!(edge_hostname("host"), "host");
    assert_eq!(edge_hostname("host:"), "host");
    assert_eq!(edge_hostname("host:x"), "host:x");
    assert_eq!(edge_hostname("[::1"), "[:");
    assert_eq!(edge_hostname(""), "");
}

#[test]
fn format_public_url_marks_ephemeral_tunnels() {
    assert_eq!(
        format_public_url("https://abcd1234.vyse.chipling.xyz", true),
        "https://abcd1234.vyse.chipling.xyz (random)"
    );
    assert_eq!(
        format_public_url("https://my-app.vyse.chipling.xyz", false),
        "https://my-app.vyse.chipling.xyz"
    );
}

#[test]
fn default_options() {
    let opts = TunnelOptions::default();
    assert_eq!(opts.port, Some(3000));
    assert_eq!(opts.edge, "127.0.0.1:4433");
    assert_eq!(opts.server_name, "localhost");
    assert_eq!(opts.local_host, "127.0.0.1");
    assert!(opts.db_path.is_none());
    assert!(!opts.tui);
    assert_eq!(opts.resolved_routes().unwrap(), vec![Route::catch_all(3000)]);
}

#[test]
fn routes_of_options() {
    let given = TunnelOptions {
        port: Some(1),
        routes: vec![Route::parse("/a=2").unwrap()],
        ..TunnelOptions::default()
    };
    assert_eq!(given.resolved_routes().unwrap(), vec![Route::parse("/a=2").unwrap()]);
    let none = TunnelOptions { port: None, ..TunnelOptions::default() };
    assert_eq!(
        none.resolved_routes().unwrap_err(),
        "pass --port or at least one --route PATH=PORT"
    );
    let specs = |list: &[&str]| list.iter().map(|s| s.to_string()).collect::<Vec<String>>();
    assert_eq!(
        parse_routes(&specs(&["/a=1", "=2"])).unwrap(),
        vec![Route::parse("/a=1").unwrap(), Route::catch_all(2)]
    );
    assert_eq!(
        parse_routes(&specs(&["/a=1", "x", "y"])).unwrap_err(),
        "invalid route `x`, expected PATH=PORT"
    );
    assert!(parse_routes(&Vec::new()).unwrap().is_empty());
}

#[test]
fn register_messages() {
    let opts = TunnelOptions {
        subdomain: Some("demo".to_string()),
        machine_id: Some("hw".to_string()),
        udp_ports: vec![53],
        ..TunnelOptions::default()
    };
    assert_eq!(
        opts.register_message(&vec![Route::catch_all(1)]),
        ControlMessage::Register {
            subdomain: Some("demo".to_string()),
            routes: vec![Route::catch_all(1)],
            machine_id: Some("hw".to_string()),
            udp_ports: vec![53],
        }
    );
}

#[test]
fn registration_replies() {
    let granted = registration(ControlMessage::Registered {
        subdomain: "a".to_string(),
        public_url: "https://a".to_string(),
        ephemeral: true,
    })
    .ok()
    .unwrap();
    assert_eq!(granted.subdomain, "a");
    assert_eq!(granted.public_url, "https://a");
    assert!(granted.ephemeral);
    assert_eq!(
        registration(ControlMessage::Error { message: "no".to_string() }).err().unwrap(),
        "edge rejected tunnel: no"
    );
    assert_eq!(
        registration(ControlMessage::Pong).err().unwrap(),
        "unexpected control message: Pong"
    );
}

#[test]
fn control_streams_are_kept_alive() {
    assert_eq!(keep_alive(KeepAliveEvent::Started), KeepAliveAction::Sleep(20));
    assert_eq!(keep_alive(KeepAliveEvent::Slept), KeepAliveAction::Ping);
    assert_eq!(keep_alive(KeepAliveEvent::Pinged), KeepAliveAction::Await(10));
    let pong = KeepAliveEvent::Answered(ControlMessage::Pong);
    assert_eq!(keep_alive(pong), KeepAliveAction::Sleep(20));
    let ping = KeepAliveEvent::Answered(ControlMessage::Ping);
    assert_eq!(keep_alive(ping), KeepAliveAction::Stop);
    assert_eq!(keep_alive(KeepAliveEvent::Failed), KeepAliveAction::Stop);
}

#[test]
fn update_notices_are_awaited_for_a_while() {
    let text = || Some("new release".to_string());
    assert!(matches!(notice_step(0, text()), NoticeStep::Print(t) if t == "\nnew release\n"));
    assert!(matches!(notice_step(19, text()), NoticeStep::Print(_)));
    assert!(matches!(notice_step(20, text()), NoticeStep::Stop));
    assert!(matches!(notice_step(19, None), NoticeStep::Pause(500)));
    assert!(matches!(notice_step(20, None), NoticeStep::Stop));
}

#[test]
fn edges_are_dialed_by_ipv4_first() {
    assert_eq!(preferred_address(&[false, true, true]), Some(1));
    assert_eq!(preferred_address(&[false, false]), Some(0));
    assert_eq!(preferred_address(&[]), None);
    assert_eq!(tls_server_name("localhost", "vyse.dev", false), "vyse.dev");
    assert_eq!(tls_server_name("localhost", "127.0.0.1", true), "localhost");
    assert_eq!(tls_server_name("edge", "vyse.dev", false), "edge");
}

#[test]
fn banners() {
    let granted = Registration {
        subdomain: "a".to_string(),
        public_url: "http://a.localhost".to_string(),
        ephemeral: false,
    };
    assert_eq!(
        banner(&granted, &vec![Route::parse("/api=8000").unwrap()], &vec![53], "127.0.0.1"),
        "\n  Vyse tunnel is live\n  Public     -> http://a.localhost\n  Route      -> /api -> 127.0.0.1:8000\n  MASQUE     -> http://a.localhost/.well-known/masque/udp/127.0.0.1/53/\n  UDP        -> 127.0.0.1:53 (CONNECT-UDP only)\n\n"
    );
}

#[test]
fn cargo_target_path_detects_debug_and_release_builds() {
    assert!(is_cargo_target_path("/home/user/project/target/debug/vyse"));
    assert!(is_cargo_target_path("/home/user/project/target/release/vyse"));
    assert!(is_cargo_target_path(r"C:\proj\target\debug\vyse.exe"));
}

#[test]
fn cargo_target_path_allows_installed_binary() {
    assert!(!is_cargo_target_path("/home/user/.vyse/bin/vyse"));
    assert!(!is_cargo_target_path("/usr/local/bin/vyse"));
}

#[test]
fn cargo_target_path_on_windows_release() {
    assert!(is_cargo_target_path(r"C:\proj\target\release\vyse.exe"));
    assert!(!is_cargo_target_path("/target/debug"));
}

#[test]
fn newer_releases() {
    assert_eq!(update_available("0.1.0", "0.2.0").unwrap().as_deref(), Some("v0.2.0"));
    assert_eq!(update_available("0.2.0", "0.2.0").unwrap(), None);
    assert_eq!(update_available("0.10.0", "0.9.9").unwrap(), None);
    assert!(update_available("0.1.0", "nonsense").is_err());
    assert_eq!(newer_tag(true, "1.0.0").as_deref(), Some("v1.0.0"));
    assert_eq!(newer_tag(false, "1.0.0"), None);
}

#[test]
fn update_texts() {
    assert_eq!(
        update_notice("v2"),
        "A new Vyse release is available (v2). Run: vyse update"
    );
    assert_eq!(
        check_status(Some("v2".to_string()), "1"),
        "A new Vyse release is available (v2).\nCurrent version: v1\nRun: vyse update"
    );
    assert_eq!(check_status(None, "1"), "Vyse is up to date (v1).");
    assert_eq!(update_status(Some("2".to_string()), "1"), "Updated Vyse to 2.");
    assert_eq!(update_status(None, "1"), "Vyse is up to date (v1).");
    assert!(cargo_build_message("/x").starts_with("running from a Cargo build (/x) \u{2014} install"));
}

fn row(id: &str, status: Option<u16>) -> LoggedRequest {
    LoggedRequest {
        id: id.to_string(),
        created_at: 1,
        method: "POST".to_string(),
        path: "/hook?x=1".to_string(),
        port: 3000,
        headers: "POST /hook?x=1 HTTP/1.1\r\nHost: a.vyse.dev\r\nX-Id: 7\r\ncontent-length: 4".to_string(),
        body: b"ping".to_vec(),
        status,
    }
}

#[test]
fn captures() {
    let raw = b"PUT /a HTTP/1.1\r\nContent-Length: 2\r\n\r\nabc";
    let row = capture(255, 80, raw, None);
    assert_eq!(row.id, "ff");
    assert_eq!(row.created_at, 255);
    assert_eq!(row.headers, "PUT /a HTTP/1.1\r\nContent-Length: 2");
    assert_eq!(row.body, b"ab");
    assert_eq!(capture(-1, 80, raw, None).id, format!("{:x}", -1i64));
    let odd = capture_parts(0, 1, b"\xff", Some(204), None, None, None);
    assert_eq!((odd.id.as_str(), odd.method.as_str(), odd.path.as_str()), ("0", "GET", "/"));
    assert_eq!(odd.headers, "\u{fffd}");
    assert!(odd.body.is_empty());
    assert_eq!(odd.status, Some(204));
    assert_eq!(headers_only(b"A\n\nB"), "A\n\nB");
    assert_eq!(body_with_length(b"A\r\n\r\nBCD", Some(usize::MAX)), b"BCD");
    assert_eq!(body_with_length(b"A\r\n\r\nBCD", Some(1)), b"B");
    assert_eq!(body_of(b"GET / HTTP/1.1\r\n\r\nBCD"), b"BCD");
}

#[test]
fn the_log_keeps_its_newest_rows() {
    let ids: Vec<String> = (0..MAX_ROWS + 2).map(|i| i.to_string()).collect();
    assert_eq!(expired(&ids), vec!["500".to_string(), "501".to_string()]);
    assert!(expired(&ids[..MAX_ROWS].to_vec()).is_empty());
}

#[test]
fn the_newest_rows_are_shown() {
    let mut shown = Vec::new();
    for i in 0..MAX_SHOWN + 5 {
        show_newest(&mut shown, row(&i.to_string(), None));
    }
    assert_eq!(shown.len(), 50);
    assert_eq!(shown[0].id, "54");
    assert_eq!(shown[49].id, "5");
    assert_eq!(row_line(&row("ab", Some(200))), "ab  POST /hook?x=1  :3000  200");
    assert_eq!(row_line(&row("ab", None).clone()), "ab  POST /hook?x=1  :3000  -");
}

#[test]
fn replays() {
    let row = row("ab", None);
    let request = replay_request("localhost", &row);
    assert_eq!(
        String::from_utf8(request.clone()).unwrap(),
        "POST /hook?x=1 HTTP/1.1\r\nX-Id: 7\r\nHost: localhost:3000\r\nContent-Length: 4\r\nConnection: close\r\n\r\nping"
    );
    assert_eq!(replay_method(&request, &row), "POST");
    assert_eq!(replay_method(b"\x00", &row), "POST");
    assert_eq!(replayed_line(&row, 201), "replayed ab POST /hook?x=1 -> 201");
    assert_eq!(no_capture_message("zz"), "no captured request with id `zz`");
}

#[test]
fn replays_drop_what_is_said_anew() {
    let mut row = row("ab", None);
    row.path = "/a b".to_string();
    row.headers = "DELETE /x\r\nHOST: q\r\nX-Host: kept\r\n\r\nContent-Length:1\nOPTIONS y\r\nget z".to_string();
    row.body = Vec::new();
    assert_eq!(
        String::from_utf8(replay_request("h", &row)).unwrap(),
        "POST /a HTTP/1.1\r\nX-Host: kept\r\nget z\r\nHost: h:3000\r\nContent-Length: 0\r\nConnection: close\r\n\r\n"
    );
}

#[test]
fn replays_know_request_lines_by_common_methods() {
    let raw = b"PURGE /cache HTTP/1.1\r\nHost: a\r\nX-Id: 7\r\n\r\n";
    let row = capture(1, 80, raw, None);
    assert_eq!(row.method, "PURGE");
    assert_eq!(
        String::from_utf8(replay_request("h", &row)).unwrap(),
        "PURGE /cache HTTP/1.1\r\nPURGE /cache HTTP/1.1\r\nX-Id: 7\r\nHost: h:80\r\nContent-Length: 0\r\nConnection: close\r\n\r\n"
    );
}

#[test]
fn bytes_that_are_no_text_are_marked() {
    assert_eq!(headers_only(b"Hello \xf0\x90\x80World\r\n\r\n"), "Hello \u{fffd}World");
    assert_eq!(headers_only(b"a\xc3(\xe2\x82\r\nb\xff\r\n\r\n"), "a\u{fffd}(\u{fffd}\r\nb\u{fffd}");
    assert_eq!(headers_only(b"\xc3\xa9\xff\xc3\xa9\r\n\r\n"), "\u{e9}\u{fffd}\u{e9}");
}
