//! The command line: which mode the program runs in, and the messages a client sends
//! to the daemon.
use vstd::prelude::*;
use crate::app::contains_text;
use crate::daemon::{is_toggle_line, newline_pieces, toggle_count, toggle_word, trim_end, trim_start, trimmed};
use crate::text::{lemma_split_single, string_of, views};

verus! {

/// Where the daemon listens.
pub const SOCKET_PATH: &'static str = "/tmp/project-picker.sock";

/// How many times a client retries its toggle after starting the daemon.
pub const DAEMON_START_ATTEMPTS: u32 = 20;

/// How long a client waits before each retry, in milliseconds.
pub const RETRY_DELAY_MS: u64 = 100;

/// What the program was asked to do.
#[derive(Debug, Clone, Copy, PartialEq, Eq, Structural)]
pub enum Command {
    /// `--kill`: ask the daemon to stop.
    Kill,
    /// `--toggle`: show or hide the picker, starting the daemon if needed.
    Toggle,
    /// No flag: run the daemon.
    RunDaemon,
}

/// The command the arguments ask for: `--kill` wins over `--toggle`; without either
/// the program runs the daemon.
pub open spec fn command_of(args: Seq<Seq<char>>) -> Command {
    if args.contains("--kill"@) {
        Command::Kill
    } else if args.contains("--toggle"@) {
        Command::Toggle
    } else {
        Command::RunDaemon
    }
}

/// Reads the command from the program's arguments (any of them may hold the flag).
pub fn command_for(args: &Vec<String>) -> (r: Command)
    ensures
        r == command_of(views(args@)),
{
    if contains_text(args, "--kill") {
        Command::Kill
    } else if contains_text(args, "--toggle") {
        Command::Toggle
    } else {
        Command::RunDaemon
    }
}

/// The message that asks the daemon to toggle the picker.
pub fn toggle_request() -> (r: String)
    ensures
        r@ == toggle_word().push('\n'),
{
    let v: Vec<char> = vec!['t', 'o', 'g', 'g', 'l', 'e', '\n'];
    assert(v@ =~= toggle_word().push('\n'));
    string_of(v.as_slice())
}

/// The message that asks the daemon to stop.
pub fn kill_request() -> (r: String)
    ensures
        r@ == seq!['k', 'i', 'l', 'l', '\n'],
{
    let v: Vec<char> = vec!['k', 'i', 'l', 'l', '\n'];
    assert(v@ =~= seq!['k', 'i', 'l', 'l', '\n']);
    string_of(v.as_slice())
}

/// The daemon reads the client's toggle message as exactly one toggle, and the stop
/// message as none.
pub proof fn law_requests_read_by_daemon()
    ensures
        toggle_count(toggle_word().push('\n')) == 1,
        toggle_count(seq!['k', 'i', 'l', 'l', '\n']) == 0,
{
    let pred = |l: Seq<char>| is_toggle_line(l);
    let t = toggle_word();
    lemma_split_single(t, '\n');
    assert(t.push('\n').drop_last() =~= t);
    assert(newline_pieces(t.push('\n')) =~= seq![t, Seq::empty()]);
    assert(trim_start(t) == t);
    assert(trim_end(t) == t);
    assert(is_toggle_line(t));
    assert(trim_start(Seq::<char>::empty()) == Seq::<char>::empty());
    assert(trim_end(Seq::<char>::empty()) == Seq::<char>::empty());
    assert(!is_toggle_line(Seq::empty()));
    assert(seq![t, Seq::<char>::empty()].filter(pred) =~= seq![t]) by {
        reveal_with_fuel(Seq::filter, 3);
        assert(seq![t, Seq::<char>::empty()].drop_last() =~= seq![t]);
        assert(seq![t].drop_last() =~= Seq::<Seq<char>>::empty());
    }
    let k = seq!['k', 'i', 'l', 'l'];
    lemma_split_single(k, '\n');
    assert(seq!['k', 'i', 'l', 'l', '\n'].drop_last() =~= k);
    assert(newline_pieces(seq!['k', 'i', 'l', 'l', '\n']) =~= seq![k, Seq::empty()]);
    assert(trim_start(k) == k);
    assert(trim_end(k) == k);
    assert(trimmed(k) != t) by {
        assert(k[0] != t[0]);
    }
    assert(seq![k, Seq::<char>::empty()].filter(pred) =~= Seq::<Seq<char>>::empty()) by {
        reveal_with_fuel(Seq::filter, 3);
        assert(seq![k, Seq::<char>::empty()].drop_last() =~= seq![k]);
        assert(seq![k].drop_last() =~= Seq::<Seq<char>>::empty());
    }
}

/// `--kill` stops the daemon whatever else is passed; otherwise `--toggle` toggles the
/// picker; with neither flag the program runs the daemon.
pub proof fn law_command_flags(args: Seq<Seq<char>>)
    ensures
        args.contains("--kill"@) ==> command_of(args) == Command::Kill,
        !args.contains("--kill"@) && args.contains("--toggle"@) ==> command_of(args) == Command::Toggle,
        !args.contains("--kill"@) && !args.contains("--toggle"@) ==> command_of(args) == Command::RunDaemon,
        command_of(args) == Command::Kill ==> args.contains("--kill"@),
        command_of(args) == Command::Toggle ==> args.contains("--toggle"@),
{
}

} // verus!
