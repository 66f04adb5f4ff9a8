use rusty_static_server::config::{help_lines, make_bad_root, ArgumentParser, ArgumentStep, Choice, Config};
use rusty_static_server::paths::FsPath;

fn parser(args: &[&str]) -> ArgumentParser {
    let mut all = vec!["server".to_string()];
    for arg in args {
        all.push(arg.to_string());
    }
    ArgumentParser::new(all, Config::defaults(FsPath::from_text("/cwd"), 4))
}

fn complaint(args: &[&str]) -> String {
    match parser(args).advance() {
        ArgumentStep::Fail(text) => text,
        other => panic!("{:?}", other),
    }
}

fn ready(args: &[&str]) -> Config {
    let mut p = parser(args);
    match p.advance() {
        ArgumentStep::CheckRoot(_) => p.finish(true).unwrap(),
        other => panic!("{:?}", other),
    }
}

#[test]
fn defaults() {
    let c = ready(&[]);
    assert_eq!(c.host, "127.0.0.1");
    assert_eq!(c.port, 8080);
    assert_eq!(c.root_dir.bytes, b"/cwd");
    assert_eq!(c.thread_pool_size, 4);
    assert_eq!(c.log_file, "server.log");
    assert_eq!(c.read_timeout_secs, 10);
}

#[test]
fn no_command_line_at_all() {
    let mut p = ArgumentParser::new(Vec::new(), Config::defaults(FsPath::from_text("/cwd"), 4));
    assert!(matches!(p.advance(), ArgumentStep::CheckRoot(root) if root.bytes == b"/cwd"));
}

#[test]
fn the_machine_has_processors() {
    let c = Config::machine_defaults(FsPath::from_text("/cwd"));
    assert!(c.thread_pool_size >= 1);
    assert_eq!(c.thread_pool_size, num_cpus::get());
    assert_eq!(c.port, 8080);
}

#[test]
fn every_option_by_both_names() {
    for names in [["-h", "-p", "-t", "-l"], ["--host", "--port", "--threads", "--log"]] {
        let c = ready(&[
            names[0], "0.0.0.0", names[1], "80", names[2], "16", names[3], "x.log", "--timeout", "5",
        ]);
        assert_eq!(c.host, "0.0.0.0");
        assert_eq!(c.port, 80);
        assert_eq!(c.thread_pool_size, 16);
        assert_eq!(c.log_file, "x.log");
        assert_eq!(c.read_timeout_secs, 5);
    }
}

#[test]
fn the_last_value_wins() {
    assert_eq!(ready(&["-p", "1", "--port", "2"]).port, 2);
    assert_eq!(ready(&["-h", "a", "-p", "1"]).host, ready(&["-p", "1", "-h", "a"]).host);
}

#[test]
fn options_without_their_value() {
    assert_eq!(complaint(&["-h"]), "--host requires an argument");
    assert_eq!(complaint(&["--port"]), "--port requires an argument");
    assert_eq!(complaint(&["-r"]), "--root requires an argument");
    assert_eq!(complaint(&["-t"]), "--threads requires an argument");
    assert_eq!(complaint(&["-p", "1", "-l"]), "--log requires an argument");
    assert_eq!(complaint(&["--timeout"]), "--timeout requires an argument (seconds)");
}

#[test]
fn values_that_are_no_numbers() {
    assert_eq!(complaint(&["-p", "x"]), "Invalid port 'x': invalid digit found in string");
    assert_eq!(complaint(&["-p", "65536"]), "Invalid port '65536': number too large to fit in target type");
    assert_eq!(complaint(&["-p", ""]), "Invalid port '': cannot parse integer from empty string");
    assert_eq!(complaint(&["-t", "-1"]), "Invalid threads '-1': invalid digit found in string");
    assert_eq!(complaint(&["-t", "0"]), "Thread pool size must be > 0");
    assert_eq!(complaint(&["--timeout", "1s"]), "Invalid timeout '1s': invalid digit found in string");
    assert_eq!(ready(&["-p", "65535"]).port, 65535);
    assert_eq!(ready(&["--timeout", "18446744073709551615"]).read_timeout_secs, u64::MAX);
}

#[test]
fn unknown_options() {
    assert_eq!(complaint(&["--verbose"]), "Unknown option: --verbose");
    assert_eq!(complaint(&["-p", "1", "x"]), "Unknown option: x");
    assert_eq!(complaint(&["-H", "x"]), "Unknown option: -H");
}

#[test]
fn help_is_shown_at_once() {
    assert!(matches!(parser(&["-p", "1", "--help", "--nonsense"]).advance(), ArgumentStep::ShowHelp));
    let lines = help_lines();
    assert_eq!(lines.len(), 13);
    assert_eq!(lines[0], "Usage: server [OPTIONS]");
    assert_eq!(lines[12], "Example: ./server -r /var/www/html -p 80 --timeout 5");
}

#[test]
fn a_root_is_resolved_in_between() {
    let mut p = parser(&["-p", "1", "--root", "www", "-l", "x.log"]);
    assert!(matches!(p.advance(), ArgumentStep::ResolveRoot(name) if name == "www"));
    assert_eq!(p.config.port, 1);
    assert!(p.root_resolved(FsPath::from_text("/srv/www"), true).is_ok());
    assert!(matches!(p.advance(), ArgumentStep::CheckRoot(root) if root.bytes == b"/srv/www"));
    let c = p.finish(true).unwrap();
    assert_eq!(c.root_dir.bytes, b"/srv/www");
    assert_eq!(c.log_file, "x.log");
}

#[test]
fn roots_that_are_no_directories() {
    let mut p = parser(&["-r", "file"]);
    p.advance();
    assert_eq!(
        p.root_resolved(FsPath::from_text("/srv/file"), false).unwrap_err(),
        "Root path '/srv/file' is not a directory"
    );
    assert_eq!(parser(&[]).finish(false).unwrap_err(), "Root path '/cwd' is not a directory");
    assert_eq!(make_bad_root("none", "gone"), "Invalid root directory 'none': gone");
}

#[test]
fn options_by_name() {
    assert_eq!(Choice::from_name("-r"), Some(Choice::Root));
    assert_eq!(Choice::from_name("--help"), Some(Choice::Help));
    assert_eq!(Choice::from_name("--Help"), None);
    assert_eq!(Choice::from_name(""), None);
    assert_eq!(Choice::Timeout.value_missing(), "--timeout requires an argument (seconds)");
}

#[test]
fn what_is_said_about_the_configuration() {
    let c = ready(&["-p", "80", "--timeout", "5"]);
    assert_eq!(c.bind_address(), "127.0.0.1:80");
    assert_eq!(c.listening_message(), "Listening on 127.0.0.1:80");
    assert_eq!(c.bind_failure("in use"), "Fatal: Could not bind to 127.0.0.1:80: in use");
    assert_eq!(
        c.startup_message(),
        "Server starting with config: host=127.0.0.1, port=80, root=/cwd, threads=4, log=server.log, timeout=5"
    );
    assert_eq!(
        c.banner(),
        vec![
            "Server listening on http://127.0.0.1:80",
            "Serving files from: /cwd",
            "Using 4 worker threads.",
            "Logging to: server.log",
            "Read timeout: 5 seconds",
            "Press Ctrl+C to shut down.",
        ]
    );
}

#[test]
fn different_options_commute() {
    let a = ready(&["-h", "x", "-l", "y", "--timeout", "3"]);
    let b = ready(&["--timeout", "3", "-l", "y", "-h", "x"]);
    assert_eq!(a.startup_message(), b.startup_message());
}

#[test]
fn a_later_part_is_read_over_an_earlier_one() {
    let c = ready(&["-p", "1", "-t", "2", "-p", "3"]);
    assert_eq!((c.port, c.thread_pool_size), (3, 2));
}

#[test]
fn a_value_may_look_like_an_option() {
    assert_eq!(ready(&["-h", "--help"]).host, "--help");
    assert_eq!(ready(&["-l", "-p"]).log_file, "-p");
}

#[test]
fn the_last_root_wins() {
    let mut p = parser(&["-r", "a", "-p", "1", "--root", "b"]);
    assert!(matches!(p.advance(), ArgumentStep::ResolveRoot(name) if name == "a"));
    assert!(p.root_resolved(FsPath::from_text("/a"), true).is_ok());
    assert!(matches!(p.advance(), ArgumentStep::ResolveRoot(name) if name == "b"));
    assert!(p.root_resolved(FsPath::from_text("/b"), true).is_ok());
    assert!(matches!(p.advance(), ArgumentStep::CheckRoot(root) if root.bytes == b"/b"));
    let c = p.finish(true).unwrap();
    assert_eq!((c.root_dir.bytes, c.port), (b"/b".to_vec(), 1));
}

#[test]
fn short_and_long_names_are_interchangeable() {
    for (short, long) in [("-h", "--host"), ("-p", "--port"), ("-r", "--root"), ("-t", "--threads"), ("-l", "--log")] {
        assert_eq!(Choice::from_name(short), Choice::from_name(long));
        assert!(Choice::from_name(short).is_some());
    }
}
