use lynxspark::config::Config;

#[test]
fn default_config_is_blank() {
    let c = Config::default();
    assert_eq!(c.bind, "");
    assert_eq!(c.port, 0);
    assert_eq!(c.snapshot_file_path, "");
    assert_eq!(c.snapshot_scan_range_interval, 0);
    assert!(!c.idle_timeout_check_enable);
    assert_eq!(c.idle_scan_range_interval, 0);
    assert!(!c.periodic_timeout_check_enable);
    assert_eq!(c.periodic_scan_range_interval, 0);
}

#[test]
fn parse_config_reads_every_setting() {
    let c = Config::parse_config(
        "bind = 127.0.0.1\nport = 8080\nsnapshot_file_path = /tmp/db\nsnapshot_scan_range_interval = 7\nidle_timeout_check_enable = true\nidle_scan_range_interval = 8\nperiodic_timeout_check_enable = true\nperiodic_scan_range_interval = 9\n",
    );
    assert_eq!(c.bind, "127.0.0.1");
    assert_eq!(c.port, 8080);
    assert_eq!(c.snapshot_file_path, "/tmp/db");
    assert_eq!(c.snapshot_scan_range_interval, 7);
    assert!(c.idle_timeout_check_enable);
    assert_eq!(c.idle_scan_range_interval, 8);
    assert!(c.periodic_timeout_check_enable);
    assert_eq!(c.periodic_scan_range_interval, 9);
}

#[test]
fn parse_config_of_an_empty_text_is_blank() {
    let c = Config::parse_config("");
    assert_eq!(c.bind, "");
    assert_eq!(c.port, 0);
    assert!(!c.idle_timeout_check_enable);
}

#[test]
fn parse_config_trims_names_and_values() {
    let c = Config::parse_config("  bind\t=  localhost  \r\n\tport=9\r\n");
    assert_eq!(c.bind, "localhost");
    assert_eq!(c.port, 9);
}

#[test]
fn parse_config_skips_lines_without_exactly_one_equals_sign() {
    let c = Config::parse_config("bind\nport = 1 = 2\n= \nbind = a = b\n# comment\nport=77");
    assert_eq!(c.bind, "");
    assert_eq!(c.port, 77);
}

#[test]
fn parse_config_skips_unknown_names() {
    let c = Config::parse_config("Bind = x\nports = 5\nbind = y\n");
    assert_eq!(c.bind, "y");
    assert_eq!(c.port, 0);
}

#[test]
fn parse_config_keeps_the_setting_where_the_value_cannot_be_read() {
    let c = Config::parse_config(
        "port = 80\nport = 65536\nport = -1\nport = http\nsnapshot_scan_range_interval = 5\nsnapshot_scan_range_interval = 18446744073709551616\nidle_timeout_check_enable = true\nidle_timeout_check_enable = yes\nidle_timeout_check_enable = TRUE\nidle_timeout_check_enable = 1\n",
    );
    assert_eq!(c.port, 80);
    assert_eq!(c.snapshot_scan_range_interval, 5);
    assert!(c.idle_timeout_check_enable);
}

#[test]
fn parse_config_reads_the_largest_numbers() {
    let c = Config::parse_config("port = 65535\nidle_scan_range_interval = 18446744073709551615\nperiodic_scan_range_interval = +12\n");
    assert_eq!(c.port, 65535);
    assert_eq!(c.idle_scan_range_interval, u64::MAX);
    assert_eq!(c.periodic_scan_range_interval, 12);
}

#[test]
fn parse_config_lets_a_later_line_win() {
    let c = Config::parse_config("bind = a\nbind = b\nperiodic_timeout_check_enable = true\nperiodic_timeout_check_enable = false\n");
    assert_eq!(c.bind, "b");
    assert!(!c.periodic_timeout_check_enable);
}

#[test]
fn parse_config_takes_an_empty_value() {
    let c = Config::parse_config("bind = a\nbind =\n");
    assert_eq!(c.bind, "");
}

#[test]
fn apply_defaults_fills_the_gaps() {
    let mut c = Config::default();
    c.apply_defaults();
    assert_eq!(c.bind, "0.0.0.0");
    assert_eq!(c.port, 5757);
    assert_eq!(c.snapshot_file_path, "./data.lsdb");
    assert_eq!(c.snapshot_scan_range_interval, 10);
    assert_eq!(c.idle_scan_range_interval, 10);
    assert_eq!(c.periodic_scan_range_interval, 10);
}

#[test]
fn apply_defaults_keeps_what_is_set() {
    let mut c = Config::parse_config("bind = h\nport = 1\nsnapshot_file_path = p\nsnapshot_scan_range_interval = 2\nidle_scan_range_interval = 3\nperiodic_scan_range_interval = 4\n");
    c.apply_defaults();
    assert_eq!(c.bind, "h");
    assert_eq!(c.port, 1);
    assert_eq!(c.snapshot_file_path, "p");
    assert_eq!(c.snapshot_scan_range_interval, 2);
    assert_eq!(c.idle_scan_range_interval, 3);
    assert_eq!(c.periodic_scan_range_interval, 4);
}

#[test]
fn apply_defaults_leaves_the_sweep_flags_alone() {
    let mut off = Config::default();
    off.apply_defaults();
    assert!(!off.idle_timeout_check_enable);
    assert!(!off.periodic_timeout_check_enable);
    let mut mixed = Config::parse_config("idle_timeout_check_enable = true\nperiodic_timeout_check_enable = false\n");
    mixed.apply_defaults();
    assert!(mixed.idle_timeout_check_enable);
    assert!(!mixed.periodic_timeout_check_enable);
}

#[test]
fn from_text_parses_and_fills() {
    let c = Config::from_text("port = 6000\n");
    assert_eq!(c.port, 6000);
    assert_eq!(c.bind, "0.0.0.0");
    assert_eq!(c.snapshot_file_path, "./data.lsdb");
    assert_eq!(c.snapshot_scan_range_interval, 10);
    assert_eq!(c.idle_scan_range_interval, 10);
    assert_eq!(c.periodic_scan_range_interval, 10);
}

#[test]
fn from_text_has_a_sweep_on_unless_the_text_switches_it_off() {
    let c = Config::from_text("");
    assert!(c.idle_timeout_check_enable);
    assert!(c.periodic_timeout_check_enable);
    let c = Config::from_text("idle_timeout_check_enable = false\n");
    assert!(!c.idle_timeout_check_enable);
    assert!(c.periodic_timeout_check_enable);
    let c = Config::from_text("periodic_timeout_check_enable = false\n");
    assert!(c.idle_timeout_check_enable);
    assert!(!c.periodic_timeout_check_enable);
    let c = Config::from_text("periodic_timeout_check_enable = no\nidle_timeout_check_enable = 0\n");
    assert!(c.idle_timeout_check_enable);
    assert!(c.periodic_timeout_check_enable);
    let c = Config::from_text("periodic_timeout_check_enable = false\nperiodic_timeout_check_enable = true\n");
    assert!(c.periodic_timeout_check_enable);
}

#[test]
fn from_text_can_switch_both_sweeps_off() {
    let c = Config::from_text("periodic_timeout_check_enable=false\nidle_timeout_check_enable=false\nport=6000");
    assert!(!c.periodic_timeout_check_enable);
    assert!(!c.idle_timeout_check_enable);
    assert_eq!(c.port, 6000);
    assert_eq!(c.bind, "0.0.0.0");
    assert_eq!(c.snapshot_file_path, "./data.lsdb");
    assert_eq!(c.snapshot_scan_range_interval, 10);
    assert_eq!(c.idle_scan_range_interval, 10);
    assert_eq!(c.periodic_scan_range_interval, 10);
}
