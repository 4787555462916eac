use max_strike::connection::{
    binary_candidates, is_port_listed, normalize_path, pick_binary, proxy_update_result,
    system_proxy_settings, CoreSlots, StartupStep, StartupWatch, CORE_BINARY, HTTP_PORT,
    SOCKS_PORT, STARTUP_ATTEMPTS, XRAY_BINARY,
};
use max_strike::logs::{LogBuffer, LOG_CAPACITY};
use max_strike::model::{ConnectionStats, LogEntry, RoutingConfig};
use max_strike::text::{decimal_chars, parse_u16_range};

fn entry(i: usize) -> LogEntry {
    LogEntry { timestamp: "t".to_string(), level: "DEBUG".to_string(), message: i.to_string() }
}

#[test]
fn log_appends_entries_in_order() {
    let mut log = LogBuffer::new();
    log.add_log("INFO", "first");
    log.add_log("WARN", "second");
    let e = log.entries();
    assert_eq!(e.len(), 2);
    assert_eq!((e[0].level.as_str(), e[0].message.as_str()), ("INFO", "first"));
    assert_eq!((e[1].level.as_str(), e[1].message.as_str()), ("WARN", "second"));
}

#[test]
fn log_timestamp_has_date_and_time() {
    let mut log = LogBuffer::new();
    log.add_log("INFO", "x");
    let ts = log.entries()[0].timestamp.clone();
    assert_eq!(ts.len(), 19);
    let b = ts.as_bytes();
    for (i, c) in b.iter().enumerate() {
        match i {
            4 | 7 => assert_eq!(*c, b'-'),
            10 => assert_eq!(*c, b' '),
            13 | 16 => assert_eq!(*c, b':'),
            _ => assert!(c.is_ascii_digit()),
        }
    }
}

#[test]
fn log_keeps_only_the_latest_entries() {
    let mut log = LogBuffer::new();
    for i in 0..LOG_CAPACITY {
        log.push(entry(i));
    }
    assert_eq!(log.entries().len(), 2000);
    log.push(entry(LOG_CAPACITY));
    assert_eq!(log.len(), LOG_CAPACITY);
    let e = log.entries();
    assert_eq!(e.len(), 2000);
    assert_eq!(e[0].message, "1");
    assert_eq!(e[1999].message, "2000");
    log.add_log("INFO", "newest");
    let e = log.entries();
    assert_eq!(e.len(), 2000);
    assert_eq!(e[0].message, "2");
    assert_eq!(e[1999].message, "newest");
}

#[test]
fn clearing_the_log_leaves_one_note() {
    let mut log = LogBuffer::new();
    log.add_log("INFO", "a");
    log.add_log("INFO", "b");
    log.clear_logs();
    assert_eq!(log.len(), 1);
    let e = log.entries();
    assert_eq!(e.len(), 1);
    assert_eq!(e[0].level, "INFO");
    assert_eq!(e[0].message, "Logs cleared");
}

#[test]
fn routing_defaults() {
    let c = RoutingConfig::default();
    assert!(!c.block_ads);
    assert!(c.bypass_lan);
    assert!(c.split_routing);
    assert_eq!(c.region, "russia");
    let d = c.copy();
    assert_eq!(d.region, "russia");
}

#[test]
fn traffic_is_not_measured() {
    let s = ConnectionStats::unmeasured();
    assert_eq!((s.uplink, s.downlink), (0, 0));
}

#[test]
fn port_check_is_exact() {
    let out = b"  TCP    127.0.0.1:10808          0.0.0.0:0              LISTENING       4242\r\n";
    assert!(is_port_listed(out, 10808));
    assert!(!is_port_listed(out, 1080));
    assert!(!is_port_listed(out, 108));
    assert!(!is_port_listed(out, 10809));
    assert!(is_port_listed(b"TCP\t127.0.0.1:1080\t0.0.0.0:0", 1080));
    assert!(!is_port_listed(b"TCP 127.0.0.1:1080", 1080));
    assert!(!is_port_listed(b"", SOCKS_PORT));
    assert!(is_port_listed(b"\xff\xfe :10809 \xff", HTTP_PORT));
}

#[test]
fn decimal_round_trip() {
    for n in [0u16, 7, 10, 443, 10808, 65535] {
        let digits = decimal_chars(n as u32);
        let text: String = digits.iter().collect();
        assert_eq!(text, n.to_string());
        assert_eq!(parse_u16_range(&digits, 0, digits.len()), Some(n));
    }
}

#[test]
fn verbatim_prefix_is_dropped() {
    assert_eq!(normalize_path(r"\\?\C:\Program Files\MAX STRIKE"), r"C:\Program Files\MAX STRIKE");
    assert_eq!(normalize_path(r"C:\Apps"), r"C:\Apps");
    assert_eq!(normalize_path(r"\\?\"), "");
    assert_eq!(normalize_path(r"\\server\share"), r"\\server\share");
}

#[test]
fn binary_candidates_in_search_order() {
    let c = binary_candidates(
        Some(r"\\?\C:\res".to_string()),
        Some(r"C:\app".to_string()),
        Some(r"D:\work".to_string()),
        CORE_BINARY,
    );
    let got: Vec<(String, Vec<String>)> = c.iter().map(|p| (p.base.clone(), p.parts.clone())).collect();
    let s = |x: &str| x.to_string();
    assert_eq!(
        got,
        vec![
            (s(r"C:\res"), vec![s("max-strike-core.exe")]),
            (s(r"C:\res"), vec![s("core"), s("max-strike-core.exe")]),
            (s(r"C:\res"), vec![s("_up_"), s("core"), s("max-strike-core.exe")]),
            (s(r"C:\app"), vec![s("max-strike-core.exe")]),
            (s(r"C:\app"), vec![s("core"), s("max-strike-core.exe")]),
            (s(r"C:\app"), vec![s("_up_"), s("core"), s("max-strike-core.exe")]),
            (s(r"D:\work"), vec![s("core"), s("max-strike-core.exe")]),
        ]
    );
    let only_cwd = binary_candidates(None, None, Some(s("/w")), XRAY_BINARY);
    assert_eq!(only_cwd.len(), 1);
    assert_eq!(only_cwd[0].parts, vec![s("core"), s("xray.exe")]);
    assert!(binary_candidates(None, None, None, XRAY_BINARY).is_empty());
}

#[test]
fn picking_a_binary() {
    let paths = vec!["a".to_string(), "b".to_string(), "c".to_string()];
    assert_eq!(pick_binary(&paths, &vec![false, true], "x.exe"), "b");
    assert_eq!(pick_binary(&paths, &vec![false, false, false], "x.exe"), "a");
    assert_eq!(pick_binary(&paths, &vec![true], "x.exe"), "a");
    assert_eq!(pick_binary(&vec![], &vec![], "x.exe"), "x.exe");
}

#[test]
fn startup_gives_up_after_thirty_probes() {
    let mut w = StartupWatch::new();
    let mut reports = Vec::new();
    for i in 1..STARTUP_ATTEMPTS {
        match w.observe(true, false) {
            StartupStep::Waiting { attempt, report } => {
                assert_eq!(attempt, i);
                if report {
                    reports.push(attempt);
                }
            }
            _ => panic!("expected to keep waiting"),
        }
    }
    assert_eq!(reports, vec![4, 8, 12, 16, 20, 24, 28]);
    assert!(matches!(w.observe(true, false), StartupStep::TimedOut));
}

#[test]
fn startup_ready_or_dead() {
    let mut w = StartupWatch::new();
    assert!(matches!(w.observe(true, false), StartupStep::Waiting { attempt: 1, report: false }));
    assert!(matches!(w.observe(true, true), StartupStep::Ready(2)));
    let mut d = StartupWatch::new();
    assert!(matches!(d.observe(false, true), StartupStep::Died));
}

#[test]
fn disconnect_stops_what_was_started() {
    let mut slots: CoreSlots<&str> = CoreSlots::new();
    slots.record_started(4242, "child");
    assert_eq!(slots.disconnect_internal(), (Some(4242), Some("child")));
    assert_eq!(slots.disconnect_internal(), (None, None));
    slots.record_started(7, "other");
    assert_eq!(slots.kill_core(), Some(7));
    assert_eq!(slots.kill_core(), None);
    assert_eq!(slots.take_child(), Some("other"));
    assert_eq!(slots.take_child(), None);
}

fn settings(enabled: bool) -> Vec<(String, String, String)> {
    system_proxy_settings(enabled)
        .into_iter()
        .map(|p| (p.schema, p.key, p.value))
        .collect()
}

#[test]
fn gnome_proxy_on_points_at_the_tunnel() {
    let s = |x: &str| x.to_string();
    assert_eq!(
        settings(true),
        vec![
            (s("org.gnome.system.proxy.http"), s("host"), s("'127.0.0.1'")),
            (s("org.gnome.system.proxy.http"), s("port"), s("10809")),
            (s("org.gnome.system.proxy.https"), s("host"), s("'127.0.0.1'")),
            (s("org.gnome.system.proxy.https"), s("port"), s("10809")),
            (
                s("org.gnome.system.proxy"),
                s("ignore-hosts"),
                s("['localhost', '127.0.0.0/8', '::1', '10.0.0.0/8', '172.16.0.0/12', '192.168.0.0/16', '169.254.0.0/16']"),
            ),
            (s("org.gnome.system.proxy"), s("mode"), s("'manual'")),
        ]
    );
}

#[test]
fn gnome_proxy_off_sets_mode_none() {
    assert_eq!(
        settings(false),
        vec![("org.gnome.system.proxy".to_string(), "mode".to_string(), "'none'".to_string())]
    );
}

#[test]
fn proxy_update_answers() {
    assert_eq!(proxy_update_result(None), Ok("System proxy updated".to_string()));
    assert_eq!(
        proxy_update_result(Some("no schema".to_string())),
        Err("gsettings failed: no schema".to_string())
    );
}
