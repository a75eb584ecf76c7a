use magic_vlsi::builder::DEFAULT_PORT;
use magic_vlsi::MagicInstanceBuilder;

#[test]
fn test_builder_api() {
    let _builder = MagicInstanceBuilder::new()
        .cwd("/fake/path/dir")
        .tech("sky130A");
}

#[test]
fn new_builder_holds_the_defaults() {
    let builder = MagicInstanceBuilder::new();
    assert_eq!(builder.program(), "magic");
    assert_eq!(builder.arguments(), vec!["-dnull".to_string(), "-noconsole".to_string()]);
    assert_eq!(builder.directory(), None);
    assert_eq!(builder.address(), "127.0.0.1:9999");
    assert_eq!(DEFAULT_PORT, 9999);
}

#[test]
fn default_is_new() {
    let builder = MagicInstanceBuilder::default();
    assert_eq!(builder.program(), "magic");
    assert_eq!(builder.arguments(), vec!["-dnull".to_string(), "-noconsole".to_string()]);
    assert_eq!(builder.directory(), None);
    assert_eq!(builder.address(), "127.0.0.1:9999");
    assert_eq!(builder.bootstrap(b""), b"set svcPort 9999\n".to_vec());
}

#[test]
fn cwd_sets_the_directory_only() {
    let builder = MagicInstanceBuilder::new().cwd("/fake/path/dir");
    assert_eq!(builder.directory(), Some("/fake/path/dir".to_string()));
    assert_eq!(builder.program(), "magic");
    assert_eq!(builder.arguments(), vec!["-dnull".to_string(), "-noconsole".to_string()]);
    assert_eq!(builder.address(), "127.0.0.1:9999");
}

#[test]
fn tech_adds_the_technology_flag() {
    let builder = MagicInstanceBuilder::new().tech("sky130A");
    assert_eq!(
        builder.arguments(),
        vec![
            "-dnull".to_string(),
            "-noconsole".to_string(),
            "-T".to_string(),
            "sky130A".to_string(),
        ]
    );
    assert_eq!(builder.program(), "magic");
    assert_eq!(builder.directory(), None);
}

#[test]
fn magic_overrides_the_program() {
    let builder = MagicInstanceBuilder::new().magic("/opt/magic/bin/magic");
    assert_eq!(builder.program(), "/opt/magic/bin/magic");
    assert_eq!(builder.arguments(), vec!["-dnull".to_string(), "-noconsole".to_string()]);
}

#[test]
fn port_sets_address_and_assignment() {
    let builder = MagicInstanceBuilder::new().port(1024);
    assert_eq!(builder.address(), "127.0.0.1:1024");
    assert_eq!(builder.bootstrap(b"puts ready\n"), b"set svcPort 1024\nputs ready\n".to_vec());
}

#[test]
fn port_is_not_validated() {
    let lowest = MagicInstanceBuilder::new().port(0);
    assert_eq!(lowest.address(), "127.0.0.1:0");
    assert_eq!(lowest.bootstrap(b""), b"set svcPort 0\n".to_vec());
    let highest = MagicInstanceBuilder::new().port(65535);
    assert_eq!(highest.address(), "127.0.0.1:65535");
    assert_eq!(highest.bootstrap(b""), b"set svcPort 65535\n".to_vec());
}

#[test]
fn last_write_wins() {
    let builder = MagicInstanceBuilder::new()
        .cwd("/first")
        .tech("scmos")
        .magic("/first/magic")
        .port(1)
        .cwd("/second")
        .tech("sky130A")
        .magic("/second/magic")
        .port(2);
    assert_eq!(builder.directory(), Some("/second".to_string()));
    assert_eq!(
        builder.arguments(),
        vec![
            "-dnull".to_string(),
            "-noconsole".to_string(),
            "-T".to_string(),
            "sky130A".to_string(),
        ]
    );
    assert_eq!(builder.program(), "/second/magic");
    assert_eq!(builder.address(), "127.0.0.1:2");
}

#[test]
fn setters_commute() {
    let one = MagicInstanceBuilder::new().port(4000).tech("scmos").cwd("work");
    let other = MagicInstanceBuilder::new().cwd("work").port(4000).tech("scmos");
    assert_eq!(one.program(), other.program());
    assert_eq!(one.arguments(), other.arguments());
    assert_eq!(one.directory(), other.directory());
    assert_eq!(one.address(), other.address());
    assert_eq!(one.bootstrap(b"x"), other.bootstrap(b"x"));
}

#[test]
fn bootstrap_keeps_the_script_byte_for_byte() {
    let script: Vec<u8> = vec![0, 255, 10, 13, 200];
    let input = MagicInstanceBuilder::new().port(77).bootstrap(&script);
    let mut expected = b"set svcPort 77\n".to_vec();
    expected.extend_from_slice(&script);
    assert_eq!(input, expected);
}

#[test]
fn empty_values_are_kept() {
    let builder = MagicInstanceBuilder::new().tech("").cwd("").magic("");
    assert_eq!(builder.program(), "");
    assert_eq!(builder.directory(), Some(String::new()));
    assert_eq!(
        builder.arguments(),
        vec!["-dnull".to_string(), "-noconsole".to_string(), "-T".to_string(), String::new()]
    );
}

#[test]
fn different_ports_have_different_addresses() {
    let ports = [0u16, 1, 9, 10, 11, 99, 100, 101, 1024, 9999, 10000, 65535];
    for one in ports {
        for other in ports {
            let first = MagicInstanceBuilder::new().port(one);
            let second = MagicInstanceBuilder::new().port(other);
            assert_eq!(first.address() == second.address(), one == other);
            assert_eq!(first.bootstrap(b"") == second.bootstrap(b""), one == other);
        }
    }
}

#[test]
fn port_assignment_is_the_first_line_of_the_bootstrap() {
    let input = MagicInstanceBuilder::new().port(4242).bootstrap(b"socket -server accept $svcPort\n");
    let text = String::from_utf8(input).unwrap();
    let mut lines = text.lines();
    assert_eq!(lines.next(), Some("set svcPort 4242"));
    assert_eq!(lines.next(), Some("socket -server accept $svcPort"));
    assert_eq!(lines.next(), None);
}
