use ports::lsof::{filter_ports, ListeningPort, Lsof, LsofError};
use ports::ps::ProcessInfo;
use ports::text::split_lines;

const LSOF_FIXTURE: &str = "\
COMMAND    PID            USER   FD   TYPE DEVICE SIZE/OFF NODE NAME
systemd-r  637 systemd-resolve   13u  IPv4  21550      0t0  UDP 127.0.0.53:53
docker-pr 2673            root    4u  IPv4  23086      0t0  TCP *:333 (LISTEN)
";

#[test]
fn lsof_lsoferror_debug() {
    let error = LsofError {
        reason: "an error has occurred",
    };

    assert_eq!(error.message(), "an error has occurred");
}

#[test]
fn lsof_lsoferror_display() {
    let error = LsofError {
        reason: "an error has occurred",
    };

    assert_eq!(error.message(), "an error has occurred");
}

#[test]
fn lsof_successful_read() {
    let res = Lsof::handle_output_ok(Some(0), "<stdout>", "<stderr>").unwrap();

    assert_eq!(res, "<stdout>");
}

#[test]
fn lsof_successful_unsuccessful_read() {
    // Exit 1 with empty error output is OK (just means nothing found).
    let res = Lsof::handle_output_ok(Some(1), "<stdout>", "").unwrap();

    assert_eq!(res, Lsof::headers().join(" "));
}

#[test]
fn lsof_unsuccessful_read() {
    let res = Lsof::handle_output_ok(Some(1), "<stdout>", "<stderr>").unwrap_err();

    assert_eq!(
        res,
        LsofError {
            reason: "The lsof command has failed in an unexpected way.",
        }
    );
}

#[test]
fn lsof_unknown_exit_code_with_blank_stderr_is_empty_result() {
    let res = Lsof::handle_output_ok(None, "<stdout>", " \t\n").unwrap();

    assert_eq!(res, "COMMAND PID USER TYPE NODE NAME");
}

#[test]
fn lsof_other_exit_code_is_an_error() {
    let res = Lsof::handle_output_ok(Some(2), "<stdout>", "").unwrap_err();

    assert_eq!(
        res,
        LsofError {
            reason: "The lsof command has failed in an unexpected way.",
        }
    );
}

#[test]
fn lsof_error_with_command() {
    let res = Lsof::handle_output_err().unwrap_err();

    assert_eq!(
        res,
        LsofError {
            reason: "Unable to locate the lsof executable on the system.",
        }
    );
}

#[test]
fn listeningport_default() {
    assert_eq!(ListeningPort::new(), ListeningPort::default());
}

#[test]
fn listeningport_new() {
    let port = ListeningPort::new();

    assert_eq!(
        port,
        ListeningPort {
            command: String::new(),
            pid: String::new(),
            user: String::new(),
            type_: String::new(),
            node: String::new(),
            name: String::new(),
            pinfo: None,
        }
    );
}

#[test]
fn listening_ports() {
    let listening_ports = Lsof::listening_ports(LSOF_FIXTURE).unwrap();

    let port: ListeningPort = listening_ports
        .into_iter()
        .find(|x| x.pid == "2673")
        .unwrap();

    assert_eq!(
        port,
        ListeningPort {
            command: String::from("docker-pr"),
            pid: String::from("2673"),
            user: String::from("root"),
            type_: String::from("IPv4"),
            node: String::from("TCP"),
            name: String::from("*:333"),
            pinfo: None,
        }
    );
}

#[test]
fn listening_ports_header_only_output_yields_no_records() {
    let output = Lsof::headers().join(" ");

    let listening_ports = Lsof::listening_ports(&output).unwrap();

    assert!(listening_ports.is_empty());
}

#[test]
fn listening_ports_empty_output_is_missing_header() {
    let error = Lsof::listening_ports("").unwrap_err();

    assert_eq!(
        error,
        LsofError {
            reason: "The lsof output is missing the header.",
        }
    );
}

#[test]
fn listening_ports_short_detail_line_is_malformed() {
    let output = "\
COMMAND PID USER TYPE NODE NAME
docker-pr 2673 (LISTEN)
";

    let error = Lsof::listening_ports(output).unwrap_err();

    assert_eq!(
        error,
        LsofError {
            reason: "The lsof output contains a malformed detail line.",
        }
    );
}

#[test]
fn lsof_extract_header_columns_regular() {
    let headers = Lsof::headers().join(" ");
    let output = format!("{headers}\n");
    let lines = split_lines(&output);

    let columns = Lsof::extract_header_columns(&lines).unwrap();

    assert_eq!(columns, Lsof::headers());
}

#[test]
fn lsof_extract_header_columns_error_empty_output() {
    let output = String::new();
    let lines = split_lines(&output);

    let error = Lsof::extract_header_columns(&lines).unwrap_err();

    assert_eq!(
        error,
        LsofError {
            reason: "The lsof output is missing the header."
        }
    );
}

#[test]
fn lsof_extract_header_columns_no_newline_after_only_headers() {
    let headers = Lsof::headers().join(" ");
    let lines = split_lines(&headers);

    let columns = Lsof::extract_header_columns(&lines).unwrap();

    assert_eq!(columns, Lsof::headers());
}

#[test]
fn lsof_extract_header_columns_error_no_header() {
    let output = String::from("\n");
    let lines = split_lines(&output);

    let error = Lsof::extract_header_columns(&lines).unwrap_err();

    assert_eq!(
        error,
        LsofError {
            // This is considered an empty header line, and so falls
            // into this error, instead of "no header"
            reason: "The lsof output is missing expected properties."
        }
    );
}

#[test]
fn lsof_extract_header_columns_with_additional_headers() {
    let mut headers = Lsof::headers();
    headers.push(String::from("FOO"));
    headers.push(String::from("BAR"));
    headers.push(String::from("BAZ"));

    let output = format!("{}\n", headers.join(" "));
    let lines = split_lines(&output);

    let columns = Lsof::extract_header_columns(&lines).unwrap();

    assert_eq!(columns, headers);
}

#[test]
fn lsof_extract_header_columns_error_with_missing_headers() {
    let mut headers = Lsof::headers();
    headers.pop();

    let output = format!("{}\n", headers.join(" "));
    let lines = split_lines(&output);

    let error = Lsof::extract_header_columns(&lines).unwrap_err();

    assert_eq!(
        error,
        LsofError {
            reason: "The lsof output is missing expected properties.",
        }
    );
}

#[test]
fn lsof_extract_header_columns_wrong_character_case() {
    let headers = Lsof::headers().join(" ").to_lowercase();
    let lines = split_lines(&headers);

    let columns = Lsof::extract_header_columns(&lines).unwrap();

    assert_eq!(columns, Lsof::headers());
}

#[test]
fn extract_detail_lines_of_listening_ports_regular() {
    let output = "\
This is not included
This is included (LISTEN)
This is included too (LISTEN)
This is again not included
";
    let lines = split_lines(output);

    let detail_lines = Lsof::extract_detail_lines_of_listening_ports(&lines);

    assert_eq!(
        detail_lines,
        vec![
            vec!["This", "is", "included"],
            vec!["This", "is", "included", "too"],
        ]
    );
}

#[test]
fn extract_detail_lines_of_listening_ports_case_insensitive() {
    let output = "\
This is not included
This is included (listen)
This is included too (lIsTeN)
This is again not included
";
    let lines = split_lines(output);

    let detail_lines = Lsof::extract_detail_lines_of_listening_ports(&lines);

    assert_eq!(
        detail_lines,
        vec![
            vec!["This", "is", "included"],
            vec!["This", "is", "included", "too"],
        ]
    );
}

#[test]
fn lsof_map_detail_values_to_properties() {
    let header_columns = vec![
        String::from("COMMAND"),
        String::from("PID"),
        String::from("USER"),
        String::from("TYPE"),
        String::from("NODE"),
        String::from("NAME"),
    ];

    let detail_lines = vec![vec![
        String::from("<command>"),
        String::from("<pid>"),
        String::from("<user>"),
        String::from("<type>"),
        String::from("<node>"),
        String::from("<name>"),
    ]];

    let lsof = Lsof::map_detail_values_to_properties(&header_columns, &detail_lines).unwrap();

    assert_eq!(
        lsof,
        vec![ListeningPort {
            command: String::from("<command>"),
            pid: String::from("<pid>"),
            user: String::from("<user>"),
            type_: String::from("<type>"),
            node: String::from("<node>"),
            name: String::from("<name>"),
            pinfo: None,
        }],
    );
}

#[test]
fn lsof_map_detail_values_to_properties_no_detail_lines() {
    let header_columns = vec![
        String::from("COMMAND"),
        String::from("PID"),
        String::from("USER"),
        String::from("TYPE"),
        String::from("NODE"),
        String::from("NAME"),
    ];

    let detail_lines = vec![];

    let lsof = Lsof::map_detail_values_to_properties(&header_columns, &detail_lines).unwrap();

    assert_eq!(lsof, vec![]);
}

#[test]
fn lsof_map_detail_values_to_properties_extra_columns_are_ignored() {
    let header_columns = vec![
        String::from("PID"),
        String::from("NOT"),
        String::from("IN"),
        String::from("HEADERS"),
    ];

    let detail_lines = vec![vec![
        String::from("<pid>"),
        String::from("<not>"),
        String::from("<in>"),
        String::from("<headers>"),
    ]];

    let lsof = Lsof::map_detail_values_to_properties(&header_columns, &detail_lines).unwrap();

    assert_eq!(
        lsof,
        vec![ListeningPort {
            command: String::new(),
            pid: String::from("<pid>"),
            user: String::new(),
            type_: String::new(),
            node: String::new(),
            name: String::new(),
            pinfo: None,
        }],
    );
}

#[test]
fn lsof_map_detail_values_to_properties_short_line_is_an_error() {
    let header_columns = vec![String::from("COMMAND"), String::from("PID")];
    let detail_lines = vec![vec![String::from("<command>")]];

    let error = Lsof::map_detail_values_to_properties(&header_columns, &detail_lines).unwrap_err();

    assert_eq!(
        error,
        LsofError {
            reason: "The lsof output contains a malformed detail line.",
        }
    );
}

fn docker_proxy_port() -> ListeningPort {
    ListeningPort {
        command: String::from("docker-pr"),
        pid: String::from("2673"),
        user: String::from("root"),
        type_: String::from("IPv4"),
        node: String::from("TCP"),
        name: String::from("*:333"),
        pinfo: None,
    }
}

#[test]
fn enrich_with_process_info_regular() {
    let mut port = docker_proxy_port();

    let mut process = ProcessInfo::new();
    process.user = String::from("root");
    process.pid = String::from("2673");
    process.pc_cpu = String::from("0.0");
    process.pc_mem = String::from("0.0");
    process.start = String::from("09:27");
    process.time = String::from("0:02");
    process.command = String::from("/usr/bin/docker-proxy -proto tcp -host-ip 0.0.0.0 -host-port 333 -container-ip 172.19.0.4 -container-port 22");

    let mut other_process = ProcessInfo::new();
    other_process.user = String::from("colord");
    other_process.pid = String::from("874");
    other_process.pc_cpu = String::from("0.0");
    other_process.pc_mem = String::from("0.1");
    other_process.start = String::from("09:27");
    other_process.time = String::from("0:00");
    other_process.command = String::from("/usr/libexec/colord");

    port.enrich_with_process_info(&vec![process.clone(), other_process]);

    let pinfo = port.pinfo.unwrap();
    assert_eq!(pinfo.pid, port.pid);
    assert_eq!(pinfo, process);
}

#[test]
fn enrich_with_process_info_missing_process() {
    let mut port = docker_proxy_port();

    let mut other_process = ProcessInfo::new();
    other_process.user = String::from("colord");
    other_process.pid = String::from("874");
    other_process.pc_cpu = String::from("0.0");
    other_process.pc_mem = String::from("0.1");
    other_process.start = String::from("09:27");
    other_process.time = String::from("0:00");
    other_process.command = String::from("/usr/libexec/colord");

    port.enrich_with_process_info(&vec![other_process]);

    assert!(port.pinfo.is_none());
}

#[test]
fn enrich_with_process_info_missing_no_processes() {
    let mut port = docker_proxy_port();

    port.enrich_with_process_info(&vec![]);

    assert!(port.pinfo.is_none());
}

#[test]
fn enrich_with_process_info_earliest_match_wins() {
    let mut port = docker_proxy_port();

    let mut first = ProcessInfo::new();
    first.pid = String::from("2673");
    first.command = String::from("first");

    let mut second = ProcessInfo::new();
    second.pid = String::from("2673");
    second.command = String::from("second");

    port.enrich_with_process_info(&vec![first.clone(), second]);

    assert_eq!(port.pinfo.unwrap(), first);
}

#[test]
fn filter_ports_keeps_every_address_shape() {
    let mut star = ListeningPort::new();
    star.name = String::from("*:1337");
    let mut v4 = ListeningPort::new();
    v4.name = String::from("127.0.0.1:1337");
    let mut v6 = ListeningPort::new();
    v6.name = String::from("[::1]:1337");
    let mut bare = ListeningPort::new();
    bare.name = String::from("42069");

    let mut listening_ports = vec![star.clone(), v4.clone(), v6.clone(), bare.clone()];

    filter_ports(
        &mut listening_ports,
        &vec![String::from("1337"), String::from("42069")],
    );

    assert_eq!(listening_ports, vec![star, v4, v6, bare]);
}
