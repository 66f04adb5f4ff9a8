//! The configuration of the server and the command line that sets it.
use crate::outside::{show_bytes, shown};
use crate::paths::FsPath;
use crate::text::{
    decimal, number, number_error, parse_number, same_text, texts, to_decimal, NumberError,
};
use vstd::prelude::*;
use vstd::string::*;

verus! {

// ---------------------------------------------------------------------------------------------
// The configuration
// ---------------------------------------------------------------------------------------------
/// How the server runs.
#[derive(Debug)]
pub struct Config {
    /// The address to listen at.
    pub host: String,
    /// The port to listen at.
    pub port: u16,
    /// The directory whose files are served.
    pub root_dir: FsPath,
    /// How many workers serve connections.
    pub thread_pool_size: usize,
    /// The file for the log.
    pub log_file: String,
    /// How many seconds a client may take to send its request line.
    pub read_timeout_secs: u64,
}

/// What a configuration says.
#[verifier::ext_equal]
pub struct Settings {
    /// The address to listen at.
    pub host: Seq<char>,
    /// The port to listen at.
    pub port: u16,
    /// The directory whose files are served.
    pub root_dir: Seq<u8>,
    /// How many workers serve connections.
    pub thread_pool_size: usize,
    /// The file for the log.
    pub log_file: Seq<char>,
    /// How many seconds a client may take to send its request line.
    pub read_timeout_secs: u64,
}

impl View for Config {
    type V = Settings;

    open spec fn view(&self) -> Settings {
        Settings {
            host: self.host@,
            port: self.port,
            root_dir: self.root_dir@,
            thread_pool_size: self.thread_pool_size,
            log_file: self.log_file@,
            read_timeout_secs: self.read_timeout_secs,
        }
    }
}

/// What holds if the command line says nothing.
pub open spec fn default_settings(root_dir: Seq<u8>, thread_pool_size: usize) -> Settings {
    Settings {
        host: "127.0.0.1"@,
        port: 8080,
        root_dir,
        thread_pool_size,
        log_file: "server.log"@,
        read_timeout_secs: 10,
    }
}

/// The address and the port in one.
pub open spec fn address(s: Settings) -> Seq<char> {
    s.host + ":"@ + decimal(s.port as nat)
}

/// The line for the log once the server listens.
pub open spec fn listening_line(s: Settings) -> Seq<char> {
    "Listening on "@ + address(s)
}

/// The complaint about an address that the server cannot listen at.
pub open spec fn bind_failure_line(s: Settings, error: Seq<char>) -> Seq<char> {
    "Fatal: Could not bind to "@ + address(s) + ": "@ + error
}

/// The line that opens the log.
pub open spec fn startup_line(s: Settings) -> Seq<char> {
    "Server starting with config: host="@ + s.host + ", port="@ + decimal(s.port as nat)
        + ", root="@ + shown(s.root_dir) + ", threads="@ + decimal(s.thread_pool_size as nat)
        + ", log="@ + s.log_file + ", timeout="@ + decimal(s.read_timeout_secs as nat)
}

/// What the console shows once the server listens.
pub open spec fn banner_lines(s: Settings) -> Seq<Seq<char>> {
    seq![
        "Server listening on http://"@ + address(s),
        "Serving files from: "@ + shown(s.root_dir),
        "Using "@ + decimal(s.thread_pool_size as nat) + " worker threads."@,
        "Logging to: "@ + s.log_file,
        "Read timeout: "@ + decimal(s.read_timeout_secs as nat) + " seconds"@,
        "Press Ctrl+C to shut down."@,
    ]
}

impl Config {
    /// The configuration that holds if the command line says nothing, for a given number of
    /// workers.
    pub fn defaults(root_dir: FsPath, thread_pool_size: usize) -> (r: Config)
        ensures
            r@ == default_settings(root_dir@, thread_pool_size),
    {
        Config {
            host: "127.0.0.1".to_owned(),
            port: 8080,
            root_dir,
            thread_pool_size,
            log_file: "server.log".to_owned(),
            read_timeout_secs: 10,
        }
    }

    /// The configuration that holds on this machine if the command line says nothing: as many
    /// workers as there are processors.
    pub fn machine_defaults(root_dir: FsPath) -> (r: Config)
        ensures
            r@ == default_settings(root_dir@, r.thread_pool_size),
            r.thread_pool_size > 0,
    {
        Config::defaults(root_dir, num_cpus::get())
    }

    /// The address and the port in one.
    pub fn bind_address(&self) -> (r: String)
        ensures
            r@ == address(self@),
    {
        let mut r = self.host.clone();
        r.append(":");
        r.append(to_decimal(self.port as u64).as_str());
        r
    }

    /// The line for the log once the server listens.
    pub fn listening_message(&self) -> (r: String)
        ensures
            r@ == listening_line(self@),
            r@ == "Listening on "@ + address(self@),
    {
        let mut r = "Listening on ".to_owned();
        r.append(self.bind_address().as_str());
        r
    }

    /// The complaint about an address that the server cannot listen at.
    pub fn bind_failure(&self, error: &str) -> (r: String)
        ensures
            r@ == bind_failure_line(self@, error@),
            r@ == "Fatal: Could not bind to "@ + address(self@) + ": "@ + error@,
    {
        let mut r = "Fatal: Could not bind to ".to_owned();
        r.append(self.bind_address().as_str());
        r.append(": ");
        r.append(error);
        r
    }

    /// The line that opens the log.
    pub fn startup_message(&self) -> (r: String)
        ensures
            r@ == startup_line(self@),
    {
        let mut r = "Server starting with config: host=".to_owned();
        r.append(self.host.as_str());
        r.append(", port=");
        r.append(to_decimal(self.port as u64).as_str());
        r.append(", root=");
        r.append(show_bytes(self.root_dir.bytes.as_slice()).as_str());
        r.append(", threads=");
        r.append(to_decimal(self.thread_pool_size as u64).as_str());
        r.append(", log=");
        r.append(self.log_file.as_str());
        r.append(", timeout=");
        r.append(to_decimal(self.read_timeout_secs).as_str());
        r
    }

    /// What the console shows once the server listens.
    pub fn banner(&self) -> (r: Vec<String>)
        ensures
            texts(r@) == banner_lines(self@),
    {
        let mut listening = "Server listening on http://".to_owned();
        listening.append(self.bind_address().as_str());
        let mut serving = "Serving files from: ".to_owned();
        serving.append(show_bytes(self.root_dir.bytes.as_slice()).as_str());
        let mut workers = "Using ".to_owned();
        workers.append(to_decimal(self.thread_pool_size as u64).as_str());
        workers.append(" worker threads.");
        let mut logging = "Logging to: ".to_owned();
        logging.append(self.log_file.as_str());
        let mut timeout = "Read timeout: ".to_owned();
        timeout.append(to_decimal(self.read_timeout_secs).as_str());
        timeout.append(" seconds");
        let mut r: Vec<String> = Vec::new();
        r.push(listening);
        r.push(serving);
        r.push(workers);
        r.push(logging);
        r.push(timeout);
        r.push("Press Ctrl+C to shut down.".to_owned());
        assert(texts(r@) =~= banner_lines(self@));
        r
    }
}

// ---------------------------------------------------------------------------------------------
// Options
// ---------------------------------------------------------------------------------------------
/// The options of the command line.
#[derive(Clone, Copy, PartialEq, Eq, Debug, Structural)]
pub enum Choice {
    /// The address to listen at.
    Host,
    /// The port to listen at.
    Port,
    /// The directory whose files are served.
    Root,
    /// How many workers serve connections.
    Threads,
    /// The file for the log.
    Log,
    /// The read timeout.
    Timeout,
    /// The help text.
    Help,
}

impl Choice {
    /// The option with a given name.
    pub open spec fn named(name: Seq<char>) -> Option<Choice> {
        if name == "-h"@ || name == "--host"@ {
            Some(Choice::Host)
        } else if name == "-p"@ || name == "--port"@ {
            Some(Choice::Port)
        } else if name == "-r"@ || name == "--root"@ {
            Some(Choice::Root)
        } else if name == "-t"@ || name == "--threads"@ {
            Some(Choice::Threads)
        } else if name == "-l"@ || name == "--log"@ {
            Some(Choice::Log)
        } else if name == "--timeout"@ {
            Some(Choice::Timeout)
        } else if name == "--help"@ {
            Some(Choice::Help)
        } else {
            None
        }
    }

    /// The complaint about an option without the value that it needs.
    pub open spec fn needs_value(self) -> Seq<char> {
        match self {
            Choice::Host => "--host requires an argument"@,
            Choice::Port => "--port requires an argument"@,
            Choice::Root => "--root requires an argument"@,
            Choice::Threads => "--threads requires an argument"@,
            Choice::Log => "--log requires an argument"@,
            _ => "--timeout requires an argument (seconds)"@,
        }
    }

    /// The option with a given name.
    pub fn from_name(name: &str) -> (r: Option<Choice>)
        ensures
            r == Choice::named(name@),
    {
        if same_text(name, "-h") || same_text(name, "--host") {
            Some(Choice::Host)
        } else if same_text(name, "-p") || same_text(name, "--port") {
            Some(Choice::Port)
        } else if same_text(name, "-r") || same_text(name, "--root") {
            Some(Choice::Root)
        } else if same_text(name, "-t") || same_text(name, "--threads") {
            Some(Choice::Threads)
        } else if same_text(name, "-l") || same_text(name, "--log") {
            Some(Choice::Log)
        } else if same_text(name, "--timeout") {
            Some(Choice::Timeout)
        } else if same_text(name, "--help") {
            Some(Choice::Help)
        } else {
            None
        }
    }

    /// The complaint about an option without the value that it needs.
    pub fn value_missing(self) -> (r: String)
        ensures
            r@ == self.needs_value(),
    {
        match self {
            Choice::Host => "--host requires an argument".to_owned(),
            Choice::Port => "--port requires an argument".to_owned(),
            Choice::Root => "--root requires an argument".to_owned(),
            Choice::Threads => "--threads requires an argument".to_owned(),
            Choice::Log => "--log requires an argument".to_owned(),
            _ => "--timeout requires an argument (seconds)".to_owned(),
        }
    }
}

/// The complaint about a value that is not the number it should be.
pub open spec fn bad_number(what: Seq<char>, value: Seq<char>, e: NumberError) -> Seq<char> {
    "Invalid "@ + what + " '"@ + value + "': "@ + number_error(e)
}

/// The complaint about a root directory that could not be resolved.
pub open spec fn bad_root(value: Seq<char>, error: Seq<char>) -> Seq<char> {
    "Invalid root directory '"@ + value + "': "@ + error
}

/// The complaint about a root directory that is none.
pub open spec fn root_is_no_directory(root: Seq<u8>) -> Seq<char> {
    "Root path '"@ + shown(root) + "' is not a directory"@
}

/// What the value of an option other than the root directory and the help text does to the
/// settings, or the complaint about it.
pub open spec fn applied(choice: Choice, value: Seq<char>, s: Settings) -> Result<
    Settings,
    Seq<char>,
> {
    match choice {
        Choice::Host => Ok(Settings { host: value, ..s }),
        Choice::Port => match number(value, u16::MAX as nat) {
            Ok(n) => Ok(Settings { port: n as u16, ..s }),
            Err(e) => Err(bad_number("port"@, value, e)),
        },
        Choice::Threads => match number(value, usize::MAX as nat) {
            Ok(n) => if n == 0 {
                Err("Thread pool size must be > 0"@)
            } else {
                Ok(Settings { thread_pool_size: n as usize, ..s })
            },
            Err(e) => Err(bad_number("threads"@, value, e)),
        },
        Choice::Log => Ok(Settings { log_file: value, ..s }),
        Choice::Timeout => match number(value, u64::MAX as nat) {
            Ok(n) => Ok(Settings { read_timeout_secs: n as u64, ..s }),
            Err(e) => Err(bad_number("timeout"@, value, e)),
        },
        _ => Ok(s),
    }
}

/// What a command line comes to.
pub enum Scan {
    /// It is read to its end, with these settings.
    Done(Settings),
    /// It names a root directory, which has to be resolved before the rest is read.
    Root {
        /// The settings so far.
        settings: Settings,
        /// The name of the directory.
        value: Seq<char>,
        /// The rest of the command line.
        rest: Seq<Seq<char>>,
    },
    /// It asks for the help text.
    Help,
    /// There is a complaint about it.
    Fail(Seq<char>),
}

/// What a command line comes to, read from its front: each option with the value behind it
/// changes the settings, up to a root directory, a complaint, the wish for the help text or the
/// end.
pub open spec fn scan(args: Seq<Seq<char>>, s: Settings) -> Scan
    decreases args.len(),
{
    if args.len() == 0 {
        Scan::Done(s)
    } else {
        match Choice::named(args[0]) {
            None => Scan::Fail("Unknown option: "@ + args[0]),
            Some(Choice::Help) => Scan::Help,
            Some(choice) => if args.len() == 1 {
                Scan::Fail(choice.needs_value())
            } else if choice == Choice::Root {
                Scan::Root { settings: s, value: args[1], rest: args.skip(2) }
            } else {
                match applied(choice, args[1], s) {
                    Err(complaint) => Scan::Fail(complaint),
                    Ok(changed) => scan(args.skip(2), changed),
                }
            },
        }
    }
}

// ---------------------------------------------------------------------------------------------
// Reading the command line
// ---------------------------------------------------------------------------------------------
/// What the command line asks for next.
#[derive(Debug)]
pub enum ArgumentStep {
    /// Resolve the root directory with this name, and find out whether it is a directory.
    ResolveRoot(String),
    /// The command line is read to its end: find out whether this root directory is a directory.
    CheckRoot(FsPath),
    /// Show the help text.
    ShowHelp,
    /// Give up, with this complaint.
    Fail(String),
}

/// A command line that is being read.
#[derive(Debug)]
pub struct ArgumentParser {
    /// The command line, the name of the program in front.
    pub args: Vec<String>,
    /// Where to go on.
    pub next: usize,
    /// The configuration so far.
    pub config: Config,
}

/// Makes the complaint about a value that is not the number it should be.
fn make_bad_number(what: &str, value: &str, e: NumberError) -> (r: String)
    ensures
        r@ == bad_number(what@, value@, e),
{
    let mut r = "Invalid ".to_owned();
    r.append(what);
    r.append(" '");
    r.append(value);
    r.append("': ");
    r.append(e.text());
    r
}

/// Makes the complaint about a root directory that could not be resolved.
pub fn make_bad_root(value: &str, error: &str) -> (r: String)
    ensures
        r@ == bad_root(value@, error@),
{
    let mut r = "Invalid root directory '".to_owned();
    r.append(value);
    r.append("': ");
    r.append(error);
    r
}

/// Makes the complaint about a root directory that is none.
fn make_root_is_no_directory(root: &FsPath) -> (r: String)
    ensures
        r@ == root_is_no_directory(root@),
{
    let mut r = "Root path '".to_owned();
    r.append(show_bytes(root.bytes.as_slice()).as_str());
    r.append("' is not a directory");
    r
}

impl Config {
    /// Takes in the value of an option other than the root directory and the help text.
    fn apply(&mut self, choice: Choice, value: &String) -> (r: Result<(), String>)
        requires
            choice != Choice::Root,
            choice != Choice::Help,
        ensures
            match applied(choice, value@, old(self)@) {
                Ok(changed) => r is Ok && final(self)@ == changed,
                Err(complaint) => {
                    &&& r matches Err(text) && text@ == complaint
                    &&& *final(self) == *old(self)
                },
            },
    {
        match choice {
            Choice::Host => {
                self.host = value.clone();
            },
            Choice::Port => match parse_number(value.as_str(), u16::MAX as u64) {
                Ok(n) => {
                    self.port = n as u16;
                },
                Err(e) => return Err(make_bad_number("port", value.as_str(), e)),
            },
            Choice::Threads => match parse_number(value.as_str(), usize::MAX as u64) {
                Ok(n) => {
                    if n == 0 {
                        return Err("Thread pool size must be > 0".to_owned());
                    }
                    self.thread_pool_size = n as usize;
                },
                Err(e) => return Err(make_bad_number("threads", value.as_str(), e)),
            },
            Choice::Log => {
                self.log_file = value.clone();
            },
            _ => match parse_number(value.as_str(), u64::MAX) {
                Ok(n) => {
                    self.read_timeout_secs = n;
                },
                Err(e) => return Err(make_bad_number("timeout", value.as_str(), e)),
            },
        }
        Ok(())
    }
}

/// A command line, the name of the program in front, that nothing was read of yet.
pub open spec fn is_unread(parser: ArgumentParser, args: Seq<String>, config: Config) -> bool {
    &&& parser.config == config
    &&& parser.rest() == if args.len() == 0 {
        Seq::<Seq<char>>::empty()
    } else {
        texts(args).skip(1)
    }
}

/// Reading on, up to something that has to be asked or said.
pub open spec fn reads_on(before: ArgumentParser, after: ArgumentParser, step: ArgumentStep) -> bool {
    match scan(before.rest(), before.config@) {
        Scan::Done(settings) => {
            &&& step matches ArgumentStep::CheckRoot(root) && root@ == settings.root_dir
            &&& after.config@ == settings
            &&& after.rest() == Seq::<Seq<char>>::empty()
        },
        Scan::Root { settings, value, rest } => {
            &&& step matches ArgumentStep::ResolveRoot(name) && name@ == value
            &&& after.config@ == settings
            &&& after.rest() == rest
        },
        Scan::Help => step is ShowHelp,
        Scan::Fail(complaint) => step matches ArgumentStep::Fail(text) && text@ == complaint,
    }
}

/// Taking in what the file system says about a root directory.
pub open spec fn takes_root(
    before: ArgumentParser,
    root: Seq<u8>,
    is_dir: bool,
    after: ArgumentParser,
    result: Result<(), String>,
) -> bool {
    &&& after.rest() == before.rest()
    &&& after.config@ == (Settings { root_dir: root, ..before.config@ })
    &&& match result {
        Ok(_) => is_dir,
        Err(complaint) => !is_dir && complaint@ == root_is_no_directory(root),
    }
}

/// Coming to the end of a command line.
pub open spec fn comes_to(
    parser: ArgumentParser,
    is_dir: bool,
    result: Result<Config, String>,
) -> bool {
    match result {
        Ok(config) => is_dir && config@ == parser.config@,
        Err(complaint) => !is_dir && complaint@ == root_is_no_directory(parser.config.root_dir@),
    }
}

impl ArgumentParser {
    /// What is still to be read.
    pub open spec fn rest(self) -> Seq<Seq<char>> {
        if self.next <= self.args@.len() {
            texts(self.args@).skip(self.next as int)
        } else {
            Seq::empty()
        }
    }

    /// A command line, the name of the program in front, over a configuration to begin with.
    pub fn new(args: Vec<String>, config: Config) -> (r: ArgumentParser)
        ensures
            is_unread(r, args@, config),
            r.config == config,
            r.rest() == if args@.len() == 0 {
                Seq::<Seq<char>>::empty()
            } else {
                texts(args@).skip(1)
            },
    {
        ArgumentParser { args, next: 1, config }
    }

    /// Reads on, up to something that has to be asked or said.
    pub fn advance(&mut self) -> (r: ArgumentStep)
        ensures
            final(self).args == old(self).args,
            old(self).config.thread_pool_size > 0 ==> final(self).config.thread_pool_size > 0,
            reads_on(*old(self), *final(self), r),
            match scan(old(self).rest(), old(self).config@) {
                Scan::Done(settings) => {
                    &&& r matches ArgumentStep::CheckRoot(root) && root@ == settings.root_dir
                    &&& final(self).config@ == settings
                    &&& final(self).rest() == Seq::<Seq<char>>::empty()
                },
                Scan::Root { settings, value, rest } => {
                    &&& r matches ArgumentStep::ResolveRoot(name) && name@ == value
                    &&& final(self).config@ == settings
                    &&& final(self).rest() == rest
                },
                Scan::Help => r is ShowHelp,
                Scan::Fail(complaint) => r matches ArgumentStep::Fail(text) && text@ == complaint,
            },
    {
        let ghost goal = scan(self.rest(), self.config@);
        while self.next < self.args.len()
            invariant
                self.args == old(self).args,
                old(self).config.thread_pool_size > 0 ==> self.config.thread_pool_size > 0,
                goal == scan(old(self).rest(), old(self).config@),
                scan(self.rest(), self.config@) == goal,
            decreases self.args@.len() - self.next,
        {
            let i = self.next;
            let ghost args = texts(self.args@);
            let ghost rest = self.rest();
            proof {
                assert(rest[0] == self.args@[i as int]@);
                assert(rest.len() == self.args@.len() - i);
                if rest.len() > 1 {
                    assert(rest[1] == self.args@[i + 1]@);
                    assert(rest.skip(2) == args.skip(i + 2));
                }
            }
            let choice = match Choice::from_name(self.args[i].as_str()) {
                None => {
                    let mut complaint = "Unknown option: ".to_owned();
                    complaint.append(self.args[i].as_str());
                    return ArgumentStep::Fail(complaint);
                },
                Some(choice) => choice,
            };
            if choice == Choice::Help {
                return ArgumentStep::ShowHelp;
            }
            if i + 1 >= self.args.len() {
                return ArgumentStep::Fail(choice.value_missing());
            }
            let value = self.args[i + 1].clone();
            if choice == Choice::Root {
                self.next = i + 2;
                return ArgumentStep::ResolveRoot(value);
            }
            match self.config.apply(choice, &value) {
                Ok(()) => {},
                Err(complaint) => return ArgumentStep::Fail(complaint),
            }
            self.next = i + 2;
            assert(self.rest() == rest.skip(2));
        }
        assert(self.rest() =~= Seq::<Seq<char>>::empty());
        ArgumentStep::CheckRoot(self.config.root_dir.copy())
    }

    /// Takes in the root directory without links and detours, and whether it is a directory.
    pub fn root_resolved(&mut self, root: FsPath, is_dir: bool) -> (r: Result<(), String>)
        ensures
            takes_root(*old(self), root@, is_dir, *final(self), r),
            final(self).args == old(self).args,
            final(self).rest() == old(self).rest(),
            final(self).config@ == (Settings { root_dir: root@, ..old(self).config@ }),
            match r {
                Ok(_) => is_dir,
                Err(complaint) => !is_dir && complaint@ == root_is_no_directory(root@),
            },
    {
        self.config.root_dir = root;
        if is_dir {
            Ok(())
        } else {
            Err(make_root_is_no_directory(&self.config.root_dir))
        }
    }

    /// The configuration, if its root directory is a directory.
    pub fn finish(self, is_dir: bool) -> (r: Result<Config, String>)
        ensures
            comes_to(self, is_dir, r),
            match r {
                Ok(config) => is_dir && config == self.config,
                Err(complaint) => !is_dir && complaint@ == root_is_no_directory(
                    self.config.root_dir@,
                ),
            },
    {
        if is_dir {
            Ok(self.config)
        } else {
            Err(make_root_is_no_directory(&self.config.root_dir))
        }
    }
}

/// The help text, line by line.
pub open spec fn help_text() -> Seq<Seq<char>> {
    seq![
        "Usage: server [OPTIONS]"@,
        "A simple multi-threaded HTTP server for static files."@,
        ""@,
        "Options:"@,
        "  -h, --host <host>       Set the host address (default: 127.0.0.1)"@,
        "  -p, --port <port>       Set the port number (default: 8080)"@,
        "  -r, --root <dir>        Set the root directory for serving files (default: current dir)"@,
        "  -t, --threads <size>    Set the thread pool size (default: number of logical CPUs)"@,
        "  -l, --log <file>        Set the log file path (default: server.log)"@,
        "      --timeout <secs>    Set read timeout in seconds (default: 10)"@,
        "      --help              Display this help message and exit"@,
        ""@,
        "Example: ./server -r /var/www/html -p 80 --timeout 5"@,
    ]
}

/// The help text, line by line.
pub fn help_lines() -> (r: Vec<&'static str>)
    ensures
        r@.map_values(|line: &str| line@) == help_text(),
        r@.map_values(|line: &str| line@) == seq![
            "Usage: server [OPTIONS]"@,
            "A simple multi-threaded HTTP server for static files."@,
            ""@,
            "Options:"@,
            "  -h, --host <host>       Set the host address (default: 127.0.0.1)"@,
            "  -p, --port <port>       Set the port number (default: 8080)"@,
            "  -r, --root <dir>        Set the root directory for serving files (default: current dir)"@,
            "  -t, --threads <size>    Set the thread pool size (default: number of logical CPUs)"@,
            "  -l, --log <file>        Set the log file path (default: server.log)"@,
            "      --timeout <secs>    Set read timeout in seconds (default: 10)"@,
            "      --help              Display this help message and exit"@,
            ""@,
            "Example: ./server -r /var/www/html -p 80 --timeout 5"@,
        ],
{
    let mut r: Vec<&'static str> = Vec::new();
    r.push("Usage: server [OPTIONS]");
    r.push("A simple multi-threaded HTTP server for static files.");
    r.push("");
    r.push("Options:");
    r.push("  -h, --host <host>       Set the host address (default: 127.0.0.1)");
    r.push("  -p, --port <port>       Set the port number (default: 8080)");
    r.push(
        "  -r, --root <dir>        Set the root directory for serving files (default: current dir)",
    );
    r.push("  -t, --threads <size>    Set the thread pool size (default: number of logical CPUs)");
    r.push("  -l, --log <file>        Set the log file path (default: server.log)");
    r.push("      --timeout <secs>    Set read timeout in seconds (default: 10)");
    r.push("      --help              Display this help message and exit");
    r.push("");
    r.push("Example: ./server -r /var/www/html -p 80 --timeout 5");
    r
}

} // verus!
