//! What holds of every command line.
use crate::config::{
    address, applied, bad_number, bad_root, banner_lines, bind_failure_line, default_settings,
    comes_to, help_text, is_unread, listening_line, reads_on, root_is_no_directory, scan, startup_line,
    takes_root, ArgumentParser, ArgumentStep, Choice, Config, Scan, Settings,
};
use crate::outside::shown;
use crate::text::{
    decimal, law_decimal_has_no_leading_zeros, law_decimal_is_read_back, mentions, mentions_at,
    number, number_error, texts, NumberError,
};
use vstd::prelude::*;
use vstd::string::*;

verus! {

/// What the file system says about a root directory that the command line names.
pub enum RootAnswer {
    /// The directory without links and detours, and whether it is a directory.
    Found {
        /// The path.
        root: Seq<u8>,
        /// Whether it is a directory.
        is_dir: bool,
    },
    /// It could not be resolved, for the given reason.
    Missing(Seq<char>),
}

/// What a command line comes to in the end.
pub enum Verdict {
    /// The server can run with these settings.
    Ready(Settings),
    /// The help text is to be shown.
    Help,
    /// There is a complaint.
    Fail(Seq<char>),
    /// A root directory is still to be resolved.
    Unanswered,
}

/// What a command line comes to when the file system gives `answers` about the root directories
/// that it names, one after the other, and `is_dir` about the one that it ends with: each
/// [`crate::config::ArgumentParser::advance`] is one [`scan`], each answer goes to
/// [`crate::config::ArgumentParser::root_resolved`], and the last one to
/// [`crate::config::ArgumentParser::finish`].
pub open spec fn verdict(
    args: Seq<Seq<char>>,
    s: Settings,
    answers: Seq<RootAnswer>,
    is_dir: bool,
) -> Verdict
    decreases answers.len(),
{
    match scan(args, s) {
        Scan::Help => Verdict::Help,
        Scan::Fail(complaint) => Verdict::Fail(complaint),
        Scan::Done(settings) => if is_dir {
            Verdict::Ready(settings)
        } else {
            Verdict::Fail(root_is_no_directory(settings.root_dir))
        },
        Scan::Root { settings, value, rest } => if answers.len() == 0 {
            Verdict::Unanswered
        } else {
            match answers[0] {
                RootAnswer::Missing(error) => Verdict::Fail(bad_root(value, error)),
                RootAnswer::Found { root, is_dir: false } => Verdict::Fail(
                    root_is_no_directory(root),
                ),
                RootAnswer::Found { root, .. } => verdict(
                    rest,
                    Settings { root_dir: root, ..settings },
                    answers.skip(1),
                    is_dir,
                ),
            }
        },
    }
}

/// What one option with its value does to the settings and to the answers that are still to come,
/// if it is an option that can be taken in.
pub open spec fn after_option(
    name: Seq<char>,
    value: Seq<char>,
    s: Settings,
    answers: Seq<RootAnswer>,
) -> Option<(Settings, Seq<RootAnswer>)> {
    match Choice::named(name) {
        None => None,
        Some(Choice::Help) => None,
        Some(Choice::Root) => if answers.len() == 0 {
            None
        } else {
            match answers[0] {
                RootAnswer::Found { root, is_dir: true } => Some(
                    (Settings { root_dir: root, ..s }, answers.skip(1)),
                ),
                _ => None,
            }
        },
        Some(choice) => match applied(choice, value, s) {
            Ok(changed) => Some((changed, answers)),
            Err(_) => None,
        },
    }
}

/// A command line goes on behind its first option, if that can be taken in; if not, the server
/// cannot run, and what is behind it does not matter.
proof fn lemma_first_option(
    args: Seq<Seq<char>>,
    s: Settings,
    answers: Seq<RootAnswer>,
    is_dir: bool,
)
    requires
        args.len() >= 2,
    ensures
        match after_option(args[0], args[1], s, answers) {
            Some((changed, rest)) => verdict(args, s, answers, is_dir) == verdict(
                args.skip(2),
                changed,
                rest,
                is_dir,
            ),
            None => {
                &&& !(verdict(args, s, answers, is_dir) is Ready)
                &&& forall|other: Seq<Seq<char>>|
                    other.len() >= 2 && other[0] == args[0] && other[1] == args[1]
                        ==> #[trigger] verdict(other, s, answers, is_dir) == verdict(
                        args,
                        s,
                        answers,
                        is_dir,
                    )
            },
        },
{
    reveal_with_fuel(verdict, 2);
    reveal_with_fuel(scan, 2);
}

/// A server that can run has at least one worker.
pub proof fn law_server_has_workers(
    args: Seq<Seq<char>>,
    s: Settings,
    answers: Seq<RootAnswer>,
    is_dir: bool,
)
    requires
        s.thread_pool_size > 0,
    ensures
        verdict(args, s, answers, is_dir) matches Verdict::Ready(settings)
            ==> settings.thread_pool_size > 0,
    decreases args.len(),
{
    if args.len() >= 2 {
        lemma_first_option(args, s, answers, is_dir);
        match after_option(args[0], args[1], s, answers) {
            Some((changed, rest)) => law_server_has_workers(args.skip(2), changed, rest, is_dir),
            None => {},
        }
    }
}

/// A command line is read from left to right: once its first part is read to the end, the second
/// part is read over the settings that the first part made.
pub proof fn law_options_apply_in_order(
    first: Seq<Seq<char>>,
    second: Seq<Seq<char>>,
    s: Settings,
)
    ensures
        match scan(first, s) {
            Scan::Done(settings) => scan(first + second, s) == scan(second, settings),
            Scan::Root { settings, value, rest } => scan(first + second, s) == (Scan::Root {
                settings,
                value,
                rest: rest + second,
            }),
            Scan::Help => scan(first + second, s) is Help,
            Scan::Fail(_) => true,
        },
    decreases first.len(),
{
    let both = first + second;
    if first.len() == 0 {
        assert(both == second);
    } else {
        assert(both[0] == first[0]);
        if first.len() > 1 {
            assert(both[1] == first[1]);
            assert(both.skip(2) == first.skip(2) + second);
            match Choice::named(first[0]) {
                Some(choice) => match applied(choice, first[1], s) {
                    Ok(changed) => law_options_apply_in_order(first.skip(2), second, changed),
                    Err(_) => {},
                },
                None => {},
            }
        }
    }
}

// ---------------------------------------------------------------------------------------------
// Values
// ---------------------------------------------------------------------------------------------
/// The value of the last occurrence of an option.
pub open spec fn last_value(args: Seq<Seq<char>>, choice: Choice) -> Option<Seq<char>>
    decreases args.len(),
{
    if args.len() < 2 {
        None
    } else {
        match last_value(args.skip(2), choice) {
            Some(value) => Some(value),
            None => if Choice::named(args[0]) == Some(choice) {
                Some(args[1])
            } else {
                None
            },
        }
    }
}

/// How often a root directory is named.
pub open spec fn roots_named(args: Seq<Seq<char>>) -> nat
    decreases args.len(),
{
    if args.len() < 2 {
        0
    } else {
        roots_named(args.skip(2)) + if Choice::named(args[0]) == Some(Choice::Root) {
            1nat
        } else {
            0
        }
    }
}

/// The number that the last occurrence of an option gives, or another one if there is none.
pub open spec fn last_number(
    args: Seq<Seq<char>>,
    choice: Choice,
    max: nat,
    otherwise: nat,
) -> nat {
    match last_value(args, choice) {
        Some(value) => number(value, max)->Ok_0,
        None => otherwise,
    }
}

/// The settings that a command line sets: each is the value of the last occurrence of its option,
/// the root directory being the answer about the one that is named last, and stays as it was if the
/// option does not occur.
pub open spec fn last_settings(
    args: Seq<Seq<char>>,
    s: Settings,
    answers: Seq<RootAnswer>,
) -> Settings {
    Settings {
        host: match last_value(args, Choice::Host) {
            Some(value) => value,
            None => s.host,
        },
        port: last_number(args, Choice::Port, u16::MAX as nat, s.port as nat) as u16,
        root_dir: if roots_named(args) == 0 {
            s.root_dir
        } else {
            answers[roots_named(args) - 1]->root
        },
        thread_pool_size: last_number(
            args,
            Choice::Threads,
            usize::MAX as nat,
            s.thread_pool_size as nat,
        ) as usize,
        log_file: match last_value(args, Choice::Log) {
            Some(value) => value,
            None => s.log_file,
        },
        read_timeout_secs: last_number(
            args,
            Choice::Timeout,
            u64::MAX as nat,
            s.read_timeout_secs as nat,
        ) as u64,
    }
}

/// The last value of each option wins: the settings that a server runs with are those that the last
/// occurrences give.
pub proof fn law_last_value_wins(
    args: Seq<Seq<char>>,
    s: Settings,
    answers: Seq<RootAnswer>,
    is_dir: bool,
)
    ensures
        verdict(args, s, answers, is_dir) matches Verdict::Ready(settings) ==> settings
            == last_settings(args, s, answers),
    decreases args.len(),
{
    if args.len() >= 2 {
        lemma_first_option(args, s, answers, is_dir);
        match after_option(args[0], args[1], s, answers) {
            Some((changed, rest)) => {
                law_last_value_wins(args.skip(2), changed, rest, is_dir);
                if verdict(args, s, answers, is_dir) is Ready {
                    lemma_roots_are_answered(args.skip(2), changed, rest, is_dir);
                    assert(last_settings(args.skip(2), changed, rest) == last_settings(
                        args,
                        s,
                        answers,
                    ));
                }
            },
            None => {},
        }
    }
}

/// If the server can run, each root directory that was named was answered.
proof fn lemma_roots_are_answered(
    args: Seq<Seq<char>>,
    s: Settings,
    answers: Seq<RootAnswer>,
    is_dir: bool,
)
    requires
        verdict(args, s, answers, is_dir) is Ready,
    ensures
        roots_named(args) <= answers.len(),
    decreases args.len(),
{
    if args.len() >= 2 {
        lemma_first_option(args, s, answers, is_dir);
        match after_option(args[0], args[1], s, answers) {
            Some((changed, rest)) => lemma_roots_are_answered(
                args.skip(2),
                changed,
                rest,
                is_dir,
            ),
            None => {},
        }
    }
}

// ---------------------------------------------------------------------------------------------
// Order and names
// ---------------------------------------------------------------------------------------------
/// Two different options can be taken in in either order.
proof fn lemma_options_commute(
    name_a: Seq<char>,
    value_a: Seq<char>,
    name_b: Seq<char>,
    value_b: Seq<char>,
    s: Settings,
    answers: Seq<RootAnswer>,
)
    requires
        Choice::named(name_a) != Choice::named(name_b),
    ensures
        (after_option(name_a, value_a, s, answers) matches Some((t, rest)) && after_option(
            name_b,
            value_b,
            t,
            rest,
        ) is Some) ==> {
            let first = after_option(name_a, value_a, s, answers)->0;
            let other = after_option(name_b, value_b, s, answers)->0;
            &&& after_option(name_b, value_b, s, answers) is Some
            &&& after_option(name_a, value_a, other.0, other.1) == after_option(
                name_b,
                value_b,
                first.0,
                first.1,
            )
        },
{
}

/// The order of two different options that follow each other does not matter, the root directory
/// included: if the server can run with the one order, it can with the other, with the same
/// settings.
pub proof fn law_different_options_commute(
    front: Seq<Seq<char>>,
    name_a: Seq<char>,
    value_a: Seq<char>,
    name_b: Seq<char>,
    value_b: Seq<char>,
    rest: Seq<Seq<char>>,
    s: Settings,
    answers: Seq<RootAnswer>,
    is_dir: bool,
)
    requires
        front.len() % 2 == 0,
        Choice::named(name_a) != Choice::named(name_b),
        verdict(
            front + seq![name_a, value_a, name_b, value_b] + rest,
            s,
            answers,
            is_dir,
        ) is Ready,
    ensures
        verdict(front + seq![name_b, value_b, name_a, value_a] + rest, s, answers, is_dir)
            == verdict(
            front + seq![name_a, value_a, name_b, value_b] + rest,
            s,
            answers,
            is_dir,
        ),
    decreases front.len(),
{
    let one = front + seq![name_a, value_a, name_b, value_b] + rest;
    let two = front + seq![name_b, value_b, name_a, value_a] + rest;
    lemma_first_option(one, s, answers, is_dir);
    lemma_first_option(two, s, answers, is_dir);
    if front.len() == 0 {
        lemma_options_commute(name_a, value_a, name_b, value_b, s, answers);
        let first = after_option(name_a, value_a, s, answers)->0;
        assert(one[0] == name_a && one[1] == value_a);
        assert(two[0] == name_b && two[1] == value_b);
        lemma_first_option(one.skip(2), first.0, first.1, is_dir);
        assert(one.skip(2)[0] == name_b && one.skip(2)[1] == value_b);
        assert(one.skip(2).skip(2) =~= rest);
        let other = after_option(name_b, value_b, s, answers)->0;
        lemma_first_option(two.skip(2), other.0, other.1, is_dir);
        assert(two.skip(2)[0] == name_a && two.skip(2)[1] == value_a);
        assert(two.skip(2).skip(2) =~= rest);
    } else {
        assert(one[0] == front[0] && two[0] == front[0]);
        assert(one[1] == front[1] && two[1] == front[1]);
        let step = after_option(front[0], front[1], s, answers)->0;
        assert(one.skip(2) =~= front.skip(2) + seq![name_a, value_a, name_b, value_b] + rest);
        assert(two.skip(2) =~= front.skip(2) + seq![name_b, value_b, name_a, value_a] + rest);
        law_different_options_commute(
            front.skip(2),
            name_a,
            value_a,
            name_b,
            value_b,
            rest,
            step.0,
            step.1,
            is_dir,
        );
    }
}

/// Two names of the same option are interchangeable, whatever the command line comes to.
pub proof fn law_names_are_interchangeable(
    front: Seq<Seq<char>>,
    name: Seq<char>,
    other: Seq<char>,
    rest: Seq<Seq<char>>,
    s: Settings,
    answers: Seq<RootAnswer>,
    is_dir: bool,
)
    requires
        front.len() % 2 == 0,
        Choice::named(name) is Some,
        Choice::named(name) == Choice::named(other),
    ensures
        verdict(front + seq![name] + rest, s, answers, is_dir) == verdict(
            front + seq![other] + rest,
            s,
            answers,
            is_dir,
        ),
    decreases front.len(),
{
    let one = front + seq![name] + rest;
    let two = front + seq![other] + rest;
    if front.len() == 0 {
        assert(one[0] == name && two[0] == other);
        if rest.len() > 0 {
            assert(one[1] == rest[0] && two[1] == rest[0]);
            assert(one.skip(2) =~= two.skip(2));
        }
        assert(scan(one, s) == scan(two, s));
    } else {
        lemma_first_option(one, s, answers, is_dir);
        lemma_first_option(two, s, answers, is_dir);
        assert(one[0] == front[0] && two[0] == front[0]);
        assert(one[1] == front[1] && two[1] == front[1]);
        match after_option(front[0], front[1], s, answers) {
            Some((changed, left)) => {
                assert(one.skip(2) =~= front.skip(2) + seq![name] + rest);
                assert(two.skip(2) =~= front.skip(2) + seq![other] + rest);
                law_names_are_interchangeable(
                    front.skip(2),
                    name,
                    other,
                    rest,
                    changed,
                    left,
                    is_dir,
                );
            },
            None => {},
        }
    }
}

/// A short name is that of the same option as the long one.
pub proof fn law_short_names()
    ensures
        Choice::named("-h"@) == Some(Choice::Host),
        Choice::named("--host"@) == Some(Choice::Host),
        Choice::named("-p"@) == Some(Choice::Port),
        Choice::named("--port"@) == Some(Choice::Port),
        Choice::named("-r"@) == Some(Choice::Root),
        Choice::named("--root"@) == Some(Choice::Root),
        Choice::named("-t"@) == Some(Choice::Threads),
        Choice::named("--threads"@) == Some(Choice::Threads),
        Choice::named("-l"@) == Some(Choice::Log),
        Choice::named("--log"@) == Some(Choice::Log),
        Choice::named("--timeout"@) == Some(Choice::Timeout),
        Choice::named("--help"@) == Some(Choice::Help),
{
    reveal_strlit("-h");
    reveal_strlit("--host");
    reveal_strlit("-p");
    reveal_strlit("--port");
    reveal_strlit("-r");
    reveal_strlit("--root");
    reveal_strlit("-t");
    reveal_strlit("--threads");
    reveal_strlit("-l");
    reveal_strlit("--log");
    reveal_strlit("--timeout");
    reveal_strlit("--help");
    // Each name has its own length, or a character of its own behind the dashes.
    assert("-h"@.len() == 2 && "-h"@[1] == 'h');
    assert("-p"@.len() == 2 && "-p"@[1] == 'p');
    assert("-r"@.len() == 2 && "-r"@[1] == 'r');
    assert("-t"@.len() == 2 && "-t"@[1] == 't');
    assert("-l"@.len() == 2 && "-l"@[1] == 'l');
    assert("--host"@.len() == 6 && "--host"@[2] == 'h' && "--host"@[3] == 'o');
    assert("--port"@.len() == 6 && "--port"@[2] == 'p');
    assert("--root"@.len() == 6 && "--root"@[2] == 'r');
    assert("--help"@.len() == 6 && "--help"@[2] == 'h' && "--help"@[3] == 'e');
    assert("--threads"@.len() == 9 && "--threads"@[3] == 'h');
    assert("--timeout"@.len() == 9 && "--timeout"@[3] == 'i');
    assert("--log"@.len() == 5);
}

// ---------------------------------------------------------------------------------------------
// When the server can run
// ---------------------------------------------------------------------------------------------
/// Tells whether an option is known and its value is one that it can have.
pub open spec fn is_good_option(name: Seq<char>, value: Seq<char>) -> bool {
    match Choice::named(name) {
        Some(Choice::Host) => true,
        Some(Choice::Port) => number(value, 65535) is Ok,
        Some(Choice::Root) => true,
        Some(Choice::Threads) => number(value, usize::MAX as nat) matches Ok(n) && n > 0,
        Some(Choice::Log) => true,
        Some(Choice::Timeout) => number(value, u64::MAX as nat) is Ok,
        _ => false,
    }
}

/// Tells whether a command line is made of such options with their values.
pub open spec fn is_good(args: Seq<Seq<char>>) -> bool
    decreases args.len(),
{
    args.len() == 0 || (args.len() >= 2 && is_good_option(args[0], args[1]) && is_good(
        args.skip(2),
    ))
}

/// Tells whether each root directory that a command line names was found.
pub open spec fn roots_are_found(args: Seq<Seq<char>>, answers: Seq<RootAnswer>) -> bool {
    &&& roots_named(args) <= answers.len()
    &&& forall|k: int|
        0 <= k < roots_named(args) ==> (#[trigger] answers[k]) matches RootAnswer::Found {
            is_dir: true,
            ..
        }
}

/// Good options are taken in, whatever stands behind them.
proof fn lemma_good_front(
    front: Seq<Seq<char>>,
    s: Settings,
    answers: Seq<RootAnswer>,
    is_dir: bool,
) -> (r: (Settings, Seq<RootAnswer>))
    requires
        is_good(front),
        roots_are_found(front, answers),
    ensures
        forall|rest: Seq<Seq<char>>|
            verdict(#[trigger] (front + rest), s, answers, is_dir) == verdict(
                rest,
                r.0,
                r.1,
                is_dir,
            ),
    decreases front.len(),
{
    if front.len() == 0 {
        assert forall|rest: Seq<Seq<char>>|
            verdict(#[trigger] (front + rest), s, answers, is_dir) == verdict(
                rest,
                s,
                answers,
                is_dir,
            ) by {
            assert(front + rest =~= rest);
        }
        (s, answers)
    } else {
        let (name, value) = (front[0], front[1]);
        if Choice::named(name) == Some(Choice::Root) {
            assert(answers[0] matches RootAnswer::Found { is_dir: true, .. });
        }
        let (changed, left) = after_option(name, value, s, answers)->0;
        assert(after_option(name, value, s, answers) is Some);
        assert(roots_are_found(front.skip(2), left)) by {
            assert forall|k: int| 0 <= k < roots_named(front.skip(2)) implies (#[trigger] left[k])
                matches RootAnswer::Found { is_dir: true, .. } by {
                if Choice::named(name) == Some(Choice::Root) {
                    assert(left[k] == answers[k + 1]);
                } else {
                    assert(left[k] == answers[k]);
                }
            }
        }
        let r = lemma_good_front(front.skip(2), changed, left, is_dir);
        assert forall|rest: Seq<Seq<char>>|
            verdict(#[trigger] (front + rest), s, answers, is_dir) == verdict(
                rest,
                r.0,
                r.1,
                is_dir,
            ) by {
            let all = front + rest;
            lemma_first_option(all, s, answers, is_dir);
            assert(all[0] == name && all[1] == value);
            assert(all.skip(2) =~= front.skip(2) + rest);
        }
        r
    }
}

/// A server can run just when all options are known and have values that they can have, and the
/// root directories that are named, and the one that it ends with, are directories.
pub proof fn law_good_command_lines_are_ready(
    args: Seq<Seq<char>>,
    s: Settings,
    answers: Seq<RootAnswer>,
    is_dir: bool,
)
    ensures
        verdict(args, s, answers, is_dir) is Ready <==> is_good(args) && roots_are_found(
            args,
            answers,
        ) && is_dir,
{
    let none = Seq::<Seq<char>>::empty();
    if is_good(args) && roots_are_found(args, answers) && is_dir {
        let r = lemma_good_front(args, s, answers, is_dir);
        assert(args + none =~= args);
        assert(verdict(args + none, s, answers, is_dir) == verdict(none, r.0, r.1, is_dir));
    }
    if verdict(args, s, answers, is_dir) is Ready {
        lemma_ready_is_good(args, s, answers, is_dir);
    }
}

proof fn lemma_ready_is_good(
    args: Seq<Seq<char>>,
    s: Settings,
    answers: Seq<RootAnswer>,
    is_dir: bool,
)
    requires
        verdict(args, s, answers, is_dir) is Ready,
    ensures
        is_good(args),
        roots_are_found(args, answers),
        is_dir,
    decreases args.len(),
{
    if args.len() >= 2 {
        lemma_first_option(args, s, answers, is_dir);
        let (changed, left) = after_option(args[0], args[1], s, answers)->0;
        lemma_ready_is_good(args.skip(2), changed, left, is_dir);
        assert forall|k: int| 0 <= k < roots_named(args) implies (#[trigger] answers[k])
            matches RootAnswer::Found { is_dir: true, .. } by {
            if Choice::named(args[0]) == Some(Choice::Root) {
                if k > 0 {
                    assert(left[k - 1] == answers[k]);
                }
            } else {
                assert(left[k] == answers[k]);
            }
        }
    }
}

/// The first fault of a command line is the one that is told: an unknown option by its name, an
/// option without its value by its own name, and a value that is no number in range by the value
/// and what is wrong with it. The wish for the help text is granted where it stands.
pub proof fn law_first_fault_is_told(
    front: Seq<Seq<char>>,
    name: Seq<char>,
    value: Seq<char>,
    rest: Seq<Seq<char>>,
    s: Settings,
    answers: Seq<RootAnswer>,
    is_dir: bool,
)
    requires
        is_good(front),
        roots_are_found(front, answers),
    ensures
        Choice::named(name) is None ==> verdict(
            front + (seq![name] + rest),
            s,
            answers,
            is_dir,
        ) == Verdict::Fail("Unknown option: "@ + name),
        Choice::named(name) == Some(Choice::Help) ==> verdict(
            front + (seq![name] + rest),
            s,
            answers,
            is_dir,
        ) is Help,
        Choice::named(name) matches Some(choice) && choice != Choice::Help ==> verdict(
            front + seq![name],
            s,
            answers,
            is_dir,
        ) == Verdict::Fail(Choice::named(name)->0.needs_value()),
        Choice::named(name) == Some(Choice::Port) ==> (number(value, 65535) matches Err(e)
            ==> verdict(front + (seq![name, value] + rest), s, answers, is_dir) == Verdict::Fail(
            bad_number("port"@, value, e),
        )),
        Choice::named(name) == Some(Choice::Threads) ==> (number(value, usize::MAX as nat) matches Err(
            e,
        ) ==> verdict(front + (seq![name, value] + rest), s, answers, is_dir) == Verdict::Fail(
            bad_number("threads"@, value, e),
        )),
        Choice::named(name) == Some(Choice::Threads) && number(value, usize::MAX as nat) == Ok::<
            nat,
            NumberError,
        >(0) ==> verdict(front + (seq![name, value] + rest), s, answers, is_dir) == Verdict::Fail(
            "Thread pool size must be > 0"@,
        ),
        Choice::named(name) == Some(Choice::Timeout) ==> (number(value, u64::MAX as nat) matches Err(
            e,
        ) ==> verdict(front + (seq![name, value] + rest), s, answers, is_dir) == Verdict::Fail(
            bad_number("timeout"@, value, e),
        )),
{
    let r = lemma_good_front(front, s, answers, is_dir);
    let one = seq![name] + rest;
    let two = seq![name, value] + rest;
    assert(verdict(front + one, s, answers, is_dir) == verdict(one, r.0, r.1, is_dir));
    assert(verdict(front + two, s, answers, is_dir) == verdict(two, r.0, r.1, is_dir));
    assert(verdict(front + seq![name], s, answers, is_dir) == verdict(
        seq![name],
        r.0,
        r.1,
        is_dir,
    ));
    assert(one[0] == name);
    assert(two[0] == name && two[1] == value);
    assert(seq![name][0] == name);
}

/// Just these names are known.
pub proof fn law_no_other_names(name: Seq<char>)
    ensures
        Choice::named(name) is Some ==> {
            ||| name == "-h"@
            ||| name == "--host"@
            ||| name == "-p"@
            ||| name == "--port"@
            ||| name == "-r"@
            ||| name == "--root"@
            ||| name == "-t"@
            ||| name == "--threads"@
            ||| name == "-l"@
            ||| name == "--log"@
            ||| name == "--timeout"@
            ||| name == "--help"@
        },
{
}

/// What holds if the command line says nothing rests on nothing but the directory and the number of
/// workers that are given, and each of these has its own place.
pub proof fn law_defaults(root_a: Seq<u8>, size_a: usize, root_b: Seq<u8>, size_b: usize)
    ensures
        default_settings(root_a, size_a).root_dir == root_a,
        default_settings(root_a, size_a).thread_pool_size == size_a,
        default_settings(root_a, size_a) == (Settings {
            root_dir: root_a,
            thread_pool_size: size_a,
            ..default_settings(root_b, size_b)
        }),
{
}

// ---------------------------------------------------------------------------------------------
// Texts
// ---------------------------------------------------------------------------------------------
/// The address can be taken apart again: in front of the colon stands the host, and what stands
/// behind it reads as the port.
pub proof fn law_address_is_read_back(s: Settings)
    ensures
        ({
            let n = s.host.len() as int;
            &&& address(s).len() > n + 1
            &&& address(s).take(n) == s.host
            &&& address(s)[n] == ':'
            &&& number(address(s).skip(n + 1), 65535) == Ok::<nat, NumberError>(s.port as nat)
            &&& address(s)[n + 1] == '0' ==> s.port == 0 && address(s).len() == n + 2
        }),
{
    reveal_strlit(":");
    let n = s.host.len() as int;
    law_decimal_has_no_leading_zeros(s.port as nat);
    law_decimal_is_read_back(s.port as nat, 65535);
    assert(address(s).take(n) =~= s.host);
    assert(address(s).skip(n + 1) =~= decimal(s.port as nat));
}

/// Servers with the same host and different ports, or with the same port and different hosts, have
/// different addresses.
pub proof fn law_addresses_differ(a: Settings, b: Settings)
    requires
        address(a) == address(b),
    ensures
        a.host == b.host ==> a.port == b.port,
        a.port == b.port ==> a.host == b.host,
{
    law_address_is_read_back(a);
    law_address_is_read_back(b);
    if a.port == b.port {
        reveal_strlit(":");
        assert(address(a).len() == a.host.len() + 1 + decimal(a.port as nat).len());
        assert(address(b).len() == b.host.len() + 1 + decimal(b.port as nat).len());
    }
}

/// The words around the settings in the line that opens the log.
pub open spec fn is_startup_text(
    a: Seq<char>,
    b: Seq<char>,
    c: Seq<char>,
    d: Seq<char>,
    e: Seq<char>,
    f: Seq<char>,
) -> bool {
    forall|s: Settings| #[trigger]
        startup_line(s) == a + s.host + b + decimal(s.port as nat) + c + shown(s.root_dir) + d
            + decimal(s.thread_pool_size as nat) + e + s.log_file + f + decimal(
            s.read_timeout_secs as nat,
        )
}

/// The line that opens the log is a fixed text that tells all settings in full.
pub proof fn law_startup_line_tells_the_settings()
    ensures
        exists|a: Seq<char>, b: Seq<char>, c: Seq<char>, d: Seq<char>, e: Seq<char>, f: Seq<char>|
            #[trigger] is_startup_text(a, b, c, d, e, f),
{
    assert(is_startup_text(
        "Server starting with config: host="@,
        ", port="@,
        ", root="@,
        ", threads="@,
        ", log="@,
        ", timeout="@,
    ));
}

/// The words around the settings in what the console shows once the server listens.
pub open spec fn is_banner_text(
    a: Seq<char>,
    b: Seq<char>,
    c: Seq<char>,
    d: Seq<char>,
    e: Seq<char>,
    f: Seq<char>,
    g: Seq<char>,
    h: Seq<char>,
) -> bool {
    forall|s: Settings| #[trigger]
        banner_lines(s) == seq![
            a + address(s),
            b + shown(s.root_dir),
            c + decimal(s.thread_pool_size as nat) + d,
            e + s.log_file,
            f + decimal(s.read_timeout_secs as nat) + g,
            h,
        ]
}

/// What the console shows once the server listens are six lines of fixed texts that tell where it
/// listens, what it serves, and the other settings in full.
pub proof fn law_banner_tells_the_settings()
    ensures
        exists|
            a: Seq<char>,
            b: Seq<char>,
            c: Seq<char>,
            d: Seq<char>,
            e: Seq<char>,
            f: Seq<char>,
            g: Seq<char>,
            h: Seq<char>,
        | #[trigger] is_banner_text(a, b, c, d, e, f, g, h),
{
    assert(is_banner_text(
        "Server listening on http://"@,
        "Serving files from: "@,
        "Using "@,
        " worker threads."@,
        "Logging to: "@,
        "Read timeout: "@,
        " seconds"@,
        "Press Ctrl+C to shut down."@,
    ));
}

/// The words around the address in the lines about listening.
pub open spec fn is_listening_text(a: Seq<char>, b: Seq<char>, c: Seq<char>) -> bool {
    &&& forall|s: Settings| #[trigger] listening_line(s) == a + address(s)
    &&& forall|s: Settings, error: Seq<char>| #[trigger]
        bind_failure_line(s, error) == b + address(s) + c + error
}

/// The lines about listening are fixed texts that tell the address, and the reason in full where
/// the server cannot listen.
pub proof fn law_lines_about_listening()
    ensures
        exists|a: Seq<char>, b: Seq<char>, c: Seq<char>| #[trigger] is_listening_text(a, b, c),
{
    assert(is_listening_text("Listening on "@, "Fatal: Could not bind to "@, ": "@));
}

/// The words around what is wrong in the complaints about values.
pub open spec fn is_complaint_text(
    a: Seq<char>,
    b: Seq<char>,
    c: Seq<char>,
    d: Seq<char>,
    e: Seq<char>,
    f: Seq<char>,
    g: Seq<char>,
) -> bool {
    &&& forall|what: Seq<char>, value: Seq<char>, error: NumberError| #[trigger]
        bad_number(what, value, error) == a + what + b + value + c + number_error(error)
    &&& forall|value: Seq<char>, error: Seq<char>| #[trigger]
        bad_root(value, error) == d + value + e + error
    &&& forall|root: Seq<u8>| #[trigger] root_is_no_directory(root) == f + shown(root) + g
}

/// The complaints about values are fixed texts that tell the value and what is wrong with it in
/// full.
pub proof fn law_complaints_tell_the_value()
    ensures
        exists|
            a: Seq<char>,
            b: Seq<char>,
            c: Seq<char>,
            d: Seq<char>,
            e: Seq<char>,
            f: Seq<char>,
            g: Seq<char>,
        | #[trigger] is_complaint_text(a, b, c, d, e, f, g),
{
    assert(is_complaint_text(
        "Invalid "@,
        " '"@,
        "': "@,
        "Invalid root directory '"@,
        "': "@,
        "Root path '"@,
        "' is not a directory"@,
    ));
}

/// Tells whether a line of the help text names an option.
pub open spec fn help_names(name: Seq<char>) -> bool {
    exists|k: int, i: int|
        0 <= k < help_text().len() && #[trigger] mentions_at(help_text()[k], name, i)
}

/// The help text names every option that there is, by each of its names.
pub proof fn law_help_names_every_option(name: Seq<char>)
    requires
        Choice::named(name) is Some,
    ensures
        help_names(name),
{
    law_no_other_names(name);
    reveal_strlit("-h");
    reveal_strlit("--host");
    reveal_strlit("-p");
    reveal_strlit("--port");
    reveal_strlit("-r");
    reveal_strlit("--root");
    reveal_strlit("-t");
    reveal_strlit("--threads");
    reveal_strlit("-l");
    reveal_strlit("--log");
    reveal_strlit("--timeout");
    reveal_strlit("--help");
    reveal_strlit("  -h, --host <host>       Set the host address (default: 127.0.0.1)");
    assert(help_text()[4].subrange(2, 4) =~= "-h"@);
    assert(mentions_at(help_text()[4], "-h"@, 2));
    assert(help_text()[4].subrange(6, 12) =~= "--host"@);
    assert(mentions_at(help_text()[4], "--host"@, 6));
    reveal_strlit("  -p, --port <port>       Set the port number (default: 8080)");
    assert(help_text()[5].subrange(2, 4) =~= "-p"@);
    assert(mentions_at(help_text()[5], "-p"@, 2));
    assert(help_text()[5].subrange(6, 12) =~= "--port"@);
    assert(mentions_at(help_text()[5], "--port"@, 6));
    reveal_strlit("  -r, --root <dir>        Set the root directory for serving files (default: current dir)");
    assert(help_text()[6].subrange(2, 4) =~= "-r"@);
    assert(mentions_at(help_text()[6], "-r"@, 2));
    assert(help_text()[6].subrange(6, 12) =~= "--root"@);
    assert(mentions_at(help_text()[6], "--root"@, 6));
    reveal_strlit("  -t, --threads <size>    Set the thread pool size (default: number of logical CPUs)");
    assert(help_text()[7].subrange(2, 4) =~= "-t"@);
    assert(mentions_at(help_text()[7], "-t"@, 2));
    assert(help_text()[7].subrange(6, 15) =~= "--threads"@);
    assert(mentions_at(help_text()[7], "--threads"@, 6));
    reveal_strlit("  -l, --log <file>        Set the log file path (default: server.log)");
    assert(help_text()[8].subrange(2, 4) =~= "-l"@);
    assert(mentions_at(help_text()[8], "-l"@, 2));
    assert(help_text()[8].subrange(6, 11) =~= "--log"@);
    assert(mentions_at(help_text()[8], "--log"@, 6));
    reveal_strlit("      --timeout <secs>    Set read timeout in seconds (default: 10)");
    assert(help_text()[9].subrange(6, 15) =~= "--timeout"@);
    assert(mentions_at(help_text()[9], "--timeout"@, 6));
    reveal_strlit("      --help              Display this help message and exit");
    assert(help_text()[10].subrange(6, 12) =~= "--help"@);
    assert(mentions_at(help_text()[10], "--help"@, 6));
}

/// A course of reading a command line: it is read on up to a root directory, what the file system
/// says about that is taken in, and so on.
pub open spec fn is_reading(
    before: Seq<ArgumentParser>,
    after: Seq<ArgumentParser>,
    steps: Seq<ArgumentStep>,
    answers: Seq<RootAnswer>,
) -> bool {
    &&& before.len() == steps.len()
    &&& after.len() == steps.len()
    &&& steps.len() > 0
    &&& answers.len() == steps.len() - 1
    &&& forall|k: int| 0 <= k < steps.len() ==> #[trigger] reads_on(before[k], after[k], steps[k])
    &&& forall|k: int| 0 <= k < answers.len() ==> #[trigger] is_round(before, after, steps, answers, k)
}

/// Round `k` of such a course asks for a root directory, which is found.
pub open spec fn is_round(
    before: Seq<ArgumentParser>,
    after: Seq<ArgumentParser>,
    steps: Seq<ArgumentStep>,
    answers: Seq<RootAnswer>,
    k: int,
) -> bool {
    &&& steps[k] is ResolveRoot
    &&& answers[k] matches RootAnswer::Found { root, is_dir: true } && takes_root(
        after[k],
        root,
        true,
        before[k + 1],
        Ok(()),
    )
}

/// Reading a command line on to its end leads to what it comes to: to the settings that the server
/// can run with, the help text, or the complaint.
pub proof fn law_reading_comes_to_the_verdict(
    before: Seq<ArgumentParser>,
    after: Seq<ArgumentParser>,
    steps: Seq<ArgumentStep>,
    answers: Seq<RootAnswer>,
    is_dir: bool,
    result: Result<Config, String>,
)
    requires
        is_reading(before, after, steps, answers),
        comes_to(after.last(), is_dir, result),
    ensures
        verdict(before[0].rest(), before[0].config@, answers, is_dir) == match steps.last() {
            ArgumentStep::CheckRoot(_) => match result {
                Ok(config) => Verdict::Ready(config@),
                Err(complaint) => Verdict::Fail(complaint@),
            },
            ArgumentStep::ShowHelp => Verdict::Help,
            ArgumentStep::Fail(complaint) => Verdict::Fail(complaint@),
            ArgumentStep::ResolveRoot(_) => Verdict::Unanswered,
        },
        steps.last() matches ArgumentStep::CheckRoot(root) ==> root@ == after.last().config@.root_dir,
    decreases steps.len(),
{
    assert(reads_on(before[0], after[0], steps[0]));
    if steps.len() > 1 {
        assert(is_round(before, after, steps, answers, 0));
        let b = before.skip(1);
        let a = after.skip(1);
        let t = steps.skip(1);
        let w = answers.skip(1);
        assert forall|k: int| 0 <= k < t.len() implies #[trigger] reads_on(b[k], a[k], t[k]) by {
            assert(reads_on(before[k + 1], after[k + 1], steps[k + 1]));
        }
        assert forall|k: int| 0 <= k < w.len() implies #[trigger] is_round(b, a, t, w, k) by {
            assert(is_round(before, after, steps, answers, k + 1));
        }
        assert(a.last() == after.last());
        assert(t.last() == steps.last());
        law_reading_comes_to_the_verdict(b, a, t, w, is_dir, result);
    }
}

/// The help text tells what holds if the command line says nothing.
pub proof fn law_help_tells_the_defaults(root_dir: Seq<u8>, size: usize)
    ensures
        ({
            let s = default_settings(root_dir, size);
            &&& mentions(help_text()[4], "default: "@ + s.host + ")"@)
            &&& mentions(help_text()[5], "default: "@ + decimal(s.port as nat) + ")"@)
            &&& mentions(help_text()[8], "default: "@ + s.log_file + ")"@)
            &&& mentions(help_text()[9], "default: "@ + decimal(s.read_timeout_secs as nat) + ")"@)
        }),
{
    reveal_strlit("default: ");
    reveal_strlit(")");
    reveal_strlit("127.0.0.1");
    reveal_strlit("server.log");
    reveal_strlit("  -h, --host <host>       Set the host address (default: 127.0.0.1)");
    reveal_strlit("  -p, --port <port>       Set the port number (default: 8080)");
    reveal_strlit("  -l, --log <file>        Set the log file path (default: server.log)");
    reveal_strlit("      --timeout <secs>    Set read timeout in seconds (default: 10)");
    reveal_with_fuel(decimal, 5);
    let s = default_settings(root_dir, size);
    let host = "default: "@ + s.host + ")"@;
    let port = "default: "@ + decimal(s.port as nat) + ")"@;
    let log = "default: "@ + s.log_file + ")"@;
    let secs = "default: "@ + decimal(s.read_timeout_secs as nat) + ")"@;
    assert(decimal(8080) =~= seq!['8', '0', '8', '0']);
    assert(decimal(10) =~= seq!['1', '0']);
    assert(help_text()[4].subrange(48, 67) =~= host);
    assert(mentions_at(help_text()[4], host, 48));
    assert(help_text()[5].subrange(47, 61) =~= port);
    assert(mentions_at(help_text()[5], port, 47));
    assert(help_text()[8].subrange(49, 69) =~= log);
    assert(mentions_at(help_text()[8], log, 49));
    assert(help_text()[9].subrange(55, 67) =~= secs);
    assert(mentions_at(help_text()[9], secs, 55));
}

/// All arguments behind the name of the program are read, each as it is.
pub proof fn law_all_arguments_are_read(parser: ArgumentParser, args: Seq<String>, config: Config)
    requires
        is_unread(parser, args, config),
    ensures
        parser.config == config,
        args.len() > 0 ==> parser.rest().len() == args.len() - 1,
        args.len() == 0 ==> parser.rest().len() == 0,
        forall|i: int| 0 < i < args.len() ==> parser.rest()[i - 1] == (#[trigger] args[i])@,
{
    assert forall|i: int| 0 < i < args.len() implies parser.rest()[i - 1] == (#[trigger] args[i])@ by {
        assert(texts(args)[i] == args[i]@);
    }
}

/// What a configuration says is what its fields hold.
pub proof fn law_settings_of_a_configuration(config: Config)
    ensures
        config@.host == config.host@,
        config@.port == config.port,
        config@.root_dir == config.root_dir.bytes@,
        config@.thread_pool_size == config.thread_pool_size,
        config@.log_file == config.log_file@,
        config@.read_timeout_secs == config.read_timeout_secs,
{
}

/// A root directory is asked for by the name that the command line gives, and reading goes on just
/// behind it.
pub proof fn law_root_is_asked_for_by_its_name(
    front: Seq<Seq<char>>,
    name: Seq<char>,
    value: Seq<char>,
    rest: Seq<Seq<char>>,
    s: Settings,
)
    requires
        is_good(front),
        roots_named(front) == 0,
        Choice::named(name) == Some(Choice::Root),
    ensures
        scan(front + (seq![name, value] + rest), s) matches Scan::Root { value: v, rest: r, .. } && v
            == value && r == rest,
    decreases front.len(),
{
    let all = front + (seq![name, value] + rest);
    if front.len() == 0 {
        assert(all[0] == name && all[1] == value);
        assert(all.skip(2) =~= rest);
    } else {
        assert(all[0] == front[0] && all[1] == front[1]);
        assert(all.skip(2) =~= front.skip(2) + (seq![name, value] + rest));
        let changed = applied(Choice::named(front[0])->0, front[1], s)->Ok_0;
        law_root_is_asked_for_by_its_name(front.skip(2), name, value, rest, changed);
    }
}

/// A root directory that cannot be resolved is told by its name and the reason, and one that is no
/// directory by its path.
pub proof fn law_root_faults_are_told(
    front: Seq<Seq<char>>,
    name: Seq<char>,
    value: Seq<char>,
    rest: Seq<Seq<char>>,
    s: Settings,
    answers: Seq<RootAnswer>,
    is_dir: bool,
)
    requires
        is_good(front),
        roots_are_found(front, answers),
        answers.len() > roots_named(front),
        Choice::named(name) == Some(Choice::Root),
    ensures
        match answers[roots_named(front) as int] {
            RootAnswer::Missing(error) => verdict(
                front + (seq![name, value] + rest),
                s,
                answers,
                is_dir,
            ) == Verdict::Fail(bad_root(value, error)),
            RootAnswer::Found { root, is_dir: false } => verdict(
                front + (seq![name, value] + rest),
                s,
                answers,
                is_dir,
            ) == Verdict::Fail(root_is_no_directory(root)),
            _ => true,
        },
    decreases front.len(),
{
    let two = seq![name, value] + rest;
    let all = front + two;
    if front.len() == 0 {
        assert(all =~= two);
        assert(two[0] == name && two[1] == value);
    } else {
        assert(all[0] == front[0] && all[1] == front[1]);
        assert(all.skip(2) =~= front.skip(2) + two);
        lemma_first_option(all, s, answers, is_dir);
        if Choice::named(front[0]) == Some(Choice::Root) {
            assert(answers[0] matches RootAnswer::Found { is_dir: true, .. });
        }
        let (changed, left) = after_option(front[0], front[1], s, answers)->0;
        assert(after_option(front[0], front[1], s, answers) is Some);
        assert(roots_are_found(front.skip(2), left)) by {
            assert forall|k: int| 0 <= k < roots_named(front.skip(2)) implies (#[trigger] left[k])
                matches RootAnswer::Found { is_dir: true, .. } by {
                if Choice::named(front[0]) == Some(Choice::Root) {
                    assert(left[k] == answers[k + 1]);
                } else {
                    assert(left[k] == answers[k]);
                }
            }
        }
        assert(left[roots_named(front.skip(2)) as int] == answers[roots_named(front) as int]);
        law_root_faults_are_told(
            front.skip(2),
            name,
            value,
            rest,
            changed,
            left,
            is_dir,
        );
    }
}

} // verus!
