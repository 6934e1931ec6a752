use ports::cli::{Config, Mode};
use ports::lsof::{filter_ports, ListeningPort};

fn args(list: &[&str]) -> Vec<String> {
    list.iter().map(|a| a.to_string()).collect()
}

#[test]
fn config_no_args() {
    let config = Config::new(&args(&[""])).unwrap();

    assert_eq!(
        config,
        Config {
            help: false,
            version: false,
            mode: Mode::Regular,
            filters: Vec::new(),
        }
    );
}

#[test]
fn config_with_bin_path() {
    let config = Config::new(&args(&["/usr/local/bin/ports"])).unwrap();

    assert_eq!(
        config,
        Config {
            help: false,
            version: false,
            mode: Mode::Regular,
            filters: Vec::new(),
        }
    );
}

#[test]
fn config_help_full() {
    let config = Config::new(&args(&["", "--help"])).unwrap();

    assert!(config.help);
}

#[test]
fn config_help_short() {
    let config = Config::new(&args(&["", "-h"])).unwrap();

    assert!(config.help);
}

#[test]
fn config_version_full() {
    let config = Config::new(&args(&["", "--version"])).unwrap();

    assert!(config.version);
}

#[test]
fn config_version_short() {
    let config = Config::new(&args(&["", "-v"])).unwrap();

    assert!(config.version);
}

#[test]
fn config_regular() {
    let config = Config::new(&args(&[""])).unwrap();

    assert_eq!(config.mode, Mode::Regular);
}

#[test]
fn config_verbose_full() {
    let config = Config::new(&args(&["", "--verbose"])).unwrap();

    assert_eq!(config.mode, Mode::Verbose);
}

#[test]
fn config_verbose_short() {
    let config = Config::new(&args(&["", "-vv"])).unwrap();

    assert_eq!(config.mode, Mode::Verbose);
}

#[test]
fn config_verbose_over_verbose_is_no_op() {
    let config = Config::new(&args(&["", "--verbose", "--verbose"])).unwrap();

    assert_eq!(config.mode, Mode::Verbose);
}

#[test]
fn config_very_verbose_full() {
    let config = Config::new(&args(&["", "--very-verbose"])).unwrap();

    assert_eq!(config.mode, Mode::VeryVerbose);
}

#[test]
fn config_very_verbose_short() {
    let config = Config::new(&args(&["", "-vvv"])).unwrap();

    assert_eq!(config.mode, Mode::VeryVerbose);
}

#[test]
fn config_very_verbose_gt_verbose() {
    let config = Config::new(&args(&["", "--verbose", "--very-verbose", "--verbose"])).unwrap();

    assert_eq!(config.mode, Mode::VeryVerbose);
}

#[test]
fn config_very_verbose_over_very_verbose_is_no_op() {
    let config = Config::new(&args(&["", "--very-verbose", "--very-verbose"])).unwrap();

    assert_eq!(config.mode, Mode::VeryVerbose);
}

#[test]
fn config_filters() {
    let config = Config::new(&args(&["", "1337", "42069"])).unwrap();

    assert_eq!(
        config.filters,
        &[String::from("1337"), String::from("42069")]
    );
}

#[test]
fn config_filters_invalid_too_low() {
    let error = Config::new(&args(&["", "-1"])).unwrap_err();

    assert!(error.contains("'-1'"));
}

#[test]
fn config_filters_invalid_too_high() {
    let error = Config::new(&args(&["", "65536"])).unwrap_err();

    assert!(error.contains("'65536'"));
}

#[test]
fn config_filters_invalid_not_a_number() {
    let error = Config::new(&args(&["", "123nan"])).unwrap_err();

    assert!(error.contains("'123nan'"));
}

#[test]
fn config_range_filters_regular() {
    let config = Config::new(&args(&["", "1000-1005"])).unwrap();

    assert_eq!(
        config.filters,
        &[
            String::from("1000"),
            String::from("1001"),
            String::from("1002"),
            String::from("1003"),
            String::from("1004"),
            String::from("1005"),
        ]
    );
}

#[test]
fn config_range_filters_end_first() {
    let config = Config::new(&args(&["", "1005-1000"])).unwrap();

    assert_eq!(
        config.filters,
        &[
            String::from("1000"),
            String::from("1001"),
            String::from("1002"),
            String::from("1003"),
            String::from("1004"),
            String::from("1005"),
        ]
    );
}

#[test]
fn config_range_filters_multiple_ranges() {
    let config = Config::new(&args(&["", "1000-1005", "40000-40003"])).unwrap();

    assert_eq!(
        config.filters,
        &[
            String::from("1000"),
            String::from("1001"),
            String::from("1002"),
            String::from("1003"),
            String::from("1004"),
            String::from("1005"),
            String::from("40000"),
            String::from("40001"),
            String::from("40002"),
            String::from("40003"),
        ]
    );
}

#[test]
fn config_range_filters_with_simple_filter() {
    let config = Config::new(&args(&["", "8000", "1005-1000"])).unwrap();

    assert_eq!(
        config.filters,
        &[
            String::from("8000"),
            String::from("1000"),
            String::from("1001"),
            String::from("1002"),
            String::from("1003"),
            String::from("1004"),
            String::from("1005"),
        ]
    );
}

#[test]
fn config_range_filters_range_equals() {
    let config = Config::new(&args(&["", "1000-1000"])).unwrap();

    assert_eq!(config.filters, &[String::from("1000")]);
}

#[test]
fn config_range_filters_invalid_too_low() {
    let error = Config::new(&args(&["", "-1-10"])).unwrap_err();

    assert!(error.contains("'-1-10'"));
}

#[test]
fn config_range_filters_invalid_too_high() {
    let error = Config::new(&args(&["", "65530-65536"])).unwrap_err();

    assert!(error.contains("'65530-65536'"));
}

#[test]
fn config_bad_argument() {
    let error = Config::new(&args(&["", "--abcdef"])).unwrap_err();

    assert!(error.contains("'--abcdef'"));
}

#[test]
fn config_bad_argument_full_message() {
    let error = Config::new(&args(&["", "--abcdef"])).unwrap_err();

    assert_eq!(error, "Unknown argument: '--abcdef'");
}

#[test]
fn filter_ports_regular() {
    let mut port_1 = ListeningPort::new();
    port_1.name = String::from("*:1337");
    let mut port_2 = ListeningPort::new();
    port_2.name = String::from("127.0.0.1:1337");
    let mut port_3 = ListeningPort::new();
    port_3.name = String::from("[::1]:1337");
    let mut port_4 = ListeningPort::new();
    port_4.name = String::from("[::]:42069");
    let mut port_5 = ListeningPort::new();
    port_5.name = String::from("42069");

    let mut port_6 = ListeningPort::new();
    port_6.name = String::new();
    let mut port_7 = ListeningPort::new();
    port_7.name = String::from("abc");
    let mut port_8 = ListeningPort::new();
    port_8.name = String::from("def:");

    let mut listening_ports = vec![
        port_1.clone(),
        port_2.clone(),
        port_3.clone(),
        port_4.clone(),
        port_5.clone(),
        port_6.clone(),
        port_7.clone(),
        port_8.clone(),
    ];

    filter_ports(
        &mut listening_ports,
        &vec![String::from("1337"), String::from("42069")],
    );

    assert!(listening_ports.contains(&port_1));
    assert!(listening_ports.contains(&port_2));
    assert!(listening_ports.contains(&port_3));
    assert!(listening_ports.contains(&port_4));
    assert!(listening_ports.contains(&port_5));

    assert!(!listening_ports.contains(&port_6));
    assert!(!listening_ports.contains(&port_7));
    assert!(!listening_ports.contains(&port_8));
}

#[test]
fn filter_ports_empty() {
    let mut port_1 = ListeningPort::new();
    port_1.name = String::from("*:1337");
    let mut port_2 = ListeningPort::new();
    port_2.name = String::from("127.0.0.1:1337");
    let mut port_3 = ListeningPort::new();
    port_3.name = String::from("[::1]:1337");

    let mut listening_ports = vec![port_1, port_2, port_3];

    filter_ports(&mut listening_ports, &vec![]);

    // This is correct. We happen to treat 'no-filters' as
    // 'keep-everything', but this is not `filter_ports()`' problem.
    assert!(listening_ports.is_empty());
}
