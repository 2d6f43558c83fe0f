use tcping::ip::IpAddress;
use tcping::probe::format_latency;
use tcping::probe::latency_hundredths;
use tcping::probe::banner_line;
use tcping::probe::connected_line;
use tcping::probe::timeout_line;
use tcping::probe::title_line;
use tcping::probe::tick;
use tcping::probe::ProbeOutcome;
use tcping::resolve::lookup_outcome;
use tcping::resolve::resolve_step;
use tcping::resolve::ResolveOutcome;
use tcping::resolve::ResolveStep;
use tcping::resolve::RESOLVE_FAILURE_EXIT_CODE;
use tcping::PROBE_TIMEOUT_MS;
use tcping::TICK_INTERVAL_MS;

fn v4(a: u8, b: u8, c: u8, d: u8) -> IpAddress {
    IpAddress::V4 { a, b, c, d }
}

#[test]
fn parse_accepts_canonical_literals() {
    assert_eq!(IpAddress::parse_ipv4("127.0.0.1"), Some(v4(127, 0, 0, 1)));
    assert_eq!(IpAddress::parse_ipv4("0.0.0.0"), Some(v4(0, 0, 0, 0)));
    assert_eq!(
        IpAddress::parse_ipv4("255.255.255.255"),
        Some(v4(255, 255, 255, 255))
    );
    assert_eq!(IpAddress::parse_ipv4("192.168.1.42"), Some(v4(192, 168, 1, 42)));
    assert_eq!(IpAddress::parse_ipv4("8.8.8.8"), Some(v4(8, 8, 8, 8)));
}

#[test]
fn parse_rejects_non_literals() {
    assert_eq!(IpAddress::parse_ipv4(""), None);
    assert_eq!(IpAddress::parse_ipv4("1.2.3"), None);
    assert_eq!(IpAddress::parse_ipv4("1.2.3.4.5"), None);
    assert_eq!(IpAddress::parse_ipv4("01.2.3.4"), None);
    assert_eq!(IpAddress::parse_ipv4("1.2.3.04"), None);
    assert_eq!(IpAddress::parse_ipv4("256.1.1.1"), None);
    assert_eq!(IpAddress::parse_ipv4("999.1.1.1"), None);
    assert_eq!(IpAddress::parse_ipv4("1.2.3.a"), None);
    assert_eq!(IpAddress::parse_ipv4("1..2.3"), None);
    assert_eq!(IpAddress::parse_ipv4(".1.2.3"), None);
    assert_eq!(IpAddress::parse_ipv4("1.2.3."), None);
    assert_eq!(IpAddress::parse_ipv4(" 1.2.3.4"), None);
    assert_eq!(IpAddress::parse_ipv4("1.2.3.4 "), None);
    assert_eq!(IpAddress::parse_ipv4("127.0.0.1\n"), None);
    assert_eq!(IpAddress::parse_ipv4("example.com"), None);
    assert_eq!(IpAddress::parse_ipv4("::1"), None);
}

#[test]
fn format_v4_is_dotted_decimal() {
    assert_eq!(v4(10, 0, 0, 1).format(), "10.0.0.1");
    assert_eq!(v4(255, 255, 255, 255).format(), "255.255.255.255");
    assert_eq!(v4(0, 0, 0, 0).format(), "0.0.0.0");
}

#[test]
fn format_v6_is_uncompressed_hex_groups() {
    let loopback = IpAddress::V6 { g0: 0, g1: 0, g2: 0, g3: 0, g4: 0, g5: 0, g6: 0, g7: 1 };
    assert_eq!(loopback.format(), "0:0:0:0:0:0:0:1");
    let doc = IpAddress::V6 {
        g0: 0x2001,
        g1: 0x0db8,
        g2: 0,
        g3: 0,
        g4: 0x8a2e,
        g5: 0x0370,
        g6: 0x7334,
        g7: 0xffff,
    };
    assert_eq!(doc.format(), "2001:db8:0:0:8a2e:370:7334:ffff");
}

#[test]
fn parse_of_format_is_identity() {
    let samples = vec![
        v4(127, 0, 0, 1),
        v4(0, 0, 0, 0),
        v4(255, 255, 255, 255),
        v4(1, 22, 100, 254),
        v4(10, 0, 200, 9),
    ];
    for ip in samples {
        assert_eq!(IpAddress::parse_ipv4(ip.format().as_str()), Some(ip));
    }
}

#[test]
fn latency_is_rounded_to_hundredths() {
    assert_eq!(latency_hundredths(0, 123456), 12346);
    assert_eq!(latency_hundredths(1, 0), 100000);
    assert_eq!(latency_hundredths(0, 0), 0);
    assert_eq!(latency_hundredths(0, 4), 0);
    assert_eq!(latency_hundredths(0, 5), 1);
    assert_eq!(latency_hundredths(0, 14), 1);
    assert_eq!(latency_hundredths(0, 15), 2);
    assert_eq!(latency_hundredths(0, 999999), 100000);
    assert_eq!(latency_hundredths(2, 500000), 250000);
}

#[test]
fn latency_text_has_two_fraction_digits() {
    assert_eq!(format_latency(12346), "123.46ms");
    assert_eq!(format_latency(0), "0.00ms");
    assert_eq!(format_latency(1), "0.01ms");
    assert_eq!(format_latency(10), "0.10ms");
    assert_eq!(format_latency(205), "2.05ms");
    assert_eq!(format_latency(100000), "1000.00ms");
}

#[test]
fn report_lines_are_exact() {
    assert_eq!(
        connected_line("127.0.0.1", 8080, 42),
        "Connected to 127.0.0.1: time=0.42ms port=8080"
    );
    assert_eq!(timeout_line(), "Connection timed out\r");
    assert_eq!(
        banner_line("10.0.0.1", 443),
        "\nConnecting to 10.0.0.1 on port 443:\r\n"
    );
    assert_eq!(title_line("10.0.0.1", 443), "Pinging 10.0.0.1:443");
}

#[test]
fn resolver_returns_a_literal_unchanged() {
    assert_eq!(
        resolve_step("8.8.8.8"),
        ResolveStep::Literal(v4(8, 8, 8, 8))
    );
    assert_eq!(resolve_step("127.0.0.1"), ResolveStep::Literal(v4(127, 0, 0, 1)));
    assert_eq!(resolve_step("example.com"), ResolveStep::NeedLookup);
    assert_eq!(resolve_step("localhost"), ResolveStep::NeedLookup);
    assert_eq!(resolve_step("::1"), ResolveStep::NeedLookup);
}

#[test]
fn failed_lookup_is_fatal_with_exit_code_one() {
    assert_eq!(lookup_outcome(None), ResolveOutcome::Fatal);
    assert_eq!(
        lookup_outcome(Some(v4(93, 184, 216, 34))),
        ResolveOutcome::Resolved(v4(93, 184, 216, 34))
    );
    assert_eq!(RESOLVE_FAILURE_EXIT_CODE, 1);
}

#[test]
fn tick_reports_and_sleeps_one_second() {
    let target = v4(127, 0, 0, 1);
    let ok = tick(
        &target,
        80,
        ProbeOutcome::Connected { elapsed_secs: 0, elapsed_micros: 123456 },
    );
    assert_eq!(ok.line, "Connected to 127.0.0.1: time=123.46ms port=80");
    assert_eq!(ok.sleep_ms, 1000);
    let bad = tick(&target, 80, ProbeOutcome::Failed);
    assert_eq!(bad.line, "Connection timed out\r");
    assert_eq!(bad.sleep_ms, 1000);
}

#[test]
fn fixed_timeout_and_cadence() {
    assert_eq!(PROBE_TIMEOUT_MS, 2000);
    assert_eq!(TICK_INTERVAL_MS, 1000);
}
