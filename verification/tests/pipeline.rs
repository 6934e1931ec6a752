use ports::cli::u16_string;
use ports::lsof::{ListeningPort, Lsof};
use ports::ps::{Ps, PsError};
use ports::text::{split_lines, split_tokens, upper_str};

#[test]
fn end_to_end_listener_scenario() {
    let output = "\
COMMAND PID USER TYPE NODE NAME
docker-pr 2673 root IPv4 TCP *:333 (LISTEN)
";

    let records = Lsof::listening_ports(output).unwrap();

    assert_eq!(
        records,
        vec![ListeningPort {
            command: String::from("docker-pr"),
            pid: String::from("2673"),
            user: String::from("root"),
            type_: String::from("IPv4"),
            node: String::from("TCP"),
            name: String::from("*:333"),
            pinfo: None,
        }]
    );
}

#[test]
fn end_to_end_process_started_header() {
    let output = "\
USER PID %CPU %MEM STARTED TIME COMMAND
root 2673 0.0 0.0 09:27 0:02 /usr/bin/docker-proxy -proto tcp
";

    let records = Ps::processes_info(output, &vec![String::from("2673")]).unwrap();

    assert_eq!(records.len(), 1);
    assert_eq!(records[0].start, "09:27");
    assert_eq!(records[0].command, "/usr/bin/docker-proxy -proto tcp");
}

#[test]
fn processes_info_blank_header_line_is_missing_properties() {
    let output = "   \nroot 1 0.0 0.0 09:27 0:01 /sbin/init\n";

    let error = Ps::processes_info(output, &vec![]).unwrap_err();

    assert_eq!(
        error,
        PsError {
            reason: "The ps output is missing expected properties.",
        }
    );
}

#[test]
fn processes_info_short_detail_line_is_malformed() {
    let output = "\
USER PID %CPU %MEM START TIME COMMAND
root 1
";

    let error = Ps::processes_info(output, &vec![]).unwrap_err();

    assert_eq!(
        error,
        PsError {
            reason: "The ps output contains a malformed detail line.",
        }
    );
}

#[test]
fn ps_map_discards_lines_without_tokens() {
    let header = vec![String::from("PID"), String::from("COMMAND")];
    let details = vec![
        vec![String::from("1"), String::from("/sbin/init")],
        vec![],
        vec![String::from("2"), String::from("kthreadd")],
    ];

    let records = Ps::map_detail_values_to_properties(&header, &details).unwrap();

    assert_eq!(records.len(), 2);
    assert_eq!(records[0].pid, "1");
    assert_eq!(records[1].pid, "2");
}

#[test]
fn processes_info_keeps_only_requested_pids() {
    let output = "\
USER PID %CPU %MEM START TIME COMMAND
root 1 0.0 0.0 09:27 0:01 /sbin/init
root 2 0.0 0.0 09:27 0:00 kthreadd
";

    let records = Ps::processes_info(output, &vec![String::from("2")]).unwrap();

    assert_eq!(records.len(), 1);
    assert_eq!(records[0].command, "kthreadd");
}

#[test]
fn split_lines_handles_carriage_returns_and_final_newline() {
    assert_eq!(split_lines(""), Vec::<String>::new());
    assert_eq!(split_lines("a\r\nb"), vec!["a", "b"]);
    assert_eq!(split_lines("a\nb\n"), vec!["a", "b"]);
    assert_eq!(split_lines("\n\n"), vec!["", ""]);
    assert_eq!(split_lines("one line"), vec!["one line"]);
}

#[test]
fn split_lines_matches_std_lines() {
    for text in [
        "",
        "a",
        "a\n",
        "a\r\n",
        "abc\r",
        "a\rb\nc",
        "ab\r\r\n",
        "\r\n\r\n",
        "COMMAND PID\r\ndocker-pr 2673",
    ] {
        let expected: Vec<String> = text.lines().map(str::to_string).collect();
        assert_eq!(split_lines(text), expected, "on {text:?}");
    }
}

#[test]
fn split_tokens_collapses_whitespace_runs() {
    assert_eq!(split_tokens(""), Vec::<String>::new());
    assert_eq!(split_tokens("   "), Vec::<String>::new());
    assert_eq!(split_tokens(" a  bb\tccc "), vec!["a", "bb", "ccc"]);
}

#[test]
fn split_tokens_matches_std_split_ascii_whitespace() {
    for text in ["", " ", "a  b\t c ", "\u{000C}x\r\ny", "docker-pr 2673  root"] {
        let expected: Vec<String> = text.split_ascii_whitespace().map(str::to_string).collect();
        assert_eq!(split_tokens(text), expected, "on {text:?}");
    }
}

#[test]
fn upper_str_matches_std_to_ascii_uppercase() {
    for text in ["", "abc", "AbC", "a-b_c%1", "münchen"] {
        assert_eq!(upper_str(text), text.to_ascii_uppercase(), "on {text:?}");
    }
}

#[test]
fn upper_str_folds_ascii_only() {
    assert_eq!(upper_str("lsof -i"), "LSOF -I");
    assert_eq!(upper_str("MiXeD %cpu"), "MIXED %CPU");
    assert_eq!(upper_str(""), "");
}

#[test]
fn u16_string_spells_decimals() {
    assert_eq!(u16_string(0), "0");
    assert_eq!(u16_string(7), "7");
    assert_eq!(u16_string(42069), "42069");
    assert_eq!(u16_string(65535), "65535");
}

#[test]
fn listener_marker_casing_never_leaks_into_records() {
    let output = "\
COMMAND PID USER TYPE NODE NAME
nginx 100 www IPv4 TCP *:80 (listen)
sshd 200 root IPv6 TCP [::]:22 (LiStEn)
";

    let records = Lsof::listening_ports(output).unwrap();

    assert_eq!(records.len(), 2);
    assert_eq!(records[0].command, "nginx");
    assert_eq!(records[0].name, "*:80");
    assert_eq!(records[1].command, "sshd");
    assert_eq!(records[1].name, "[::]:22");
}
