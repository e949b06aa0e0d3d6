//! Operator commands typed into chat: `/lua reload [script]` and
//! `/lua debug vm`.

use vstd::prelude::*;
use vstd::string::*;
use crate::text::text_eq;

verus! {

#[derive(Debug, PartialEq, Eq)]
pub enum DebugCommand {
    /// Print all instances.
    Vm,
}

#[derive(Debug, PartialEq, Eq)]
pub enum Command {
    /// Reload one script, or all of them when none is named.
    Reload { script: Option<String> },
    /// Debug commands.
    Debug { command: DebugCommand },
}

#[derive(Debug, PartialEq, Eq)]
pub struct Cli {
    pub command: Command,
}

/// Why a command line was refused.
#[derive(Debug, Clone, Copy, PartialEq, Eq, Structural)]
pub enum CommandError {
    /// No subcommand was given.
    MissingSubcommand,
    /// The subcommand is not known.
    UnknownSubcommand,
    /// The subcommand's arguments do not fit it.
    InvalidArguments,
}

/// What the manager is asked to do.
#[derive(Debug, PartialEq, Eq)]
pub enum ManagerEvent {
    ReloadAll,
    Reload(String),
    ListVms,
}

/// A word that reads as an option (`-x`, `--x`) rather than a value.
pub open spec fn is_flag(s: Seq<char>) -> bool {
    s.len() > 1 && s[0] == '-'
}

/// The command that the words after the program name give, as a view.
pub open spec fn command_of(sub: Option<Seq<char>>, value: Option<Seq<char>>, extra: bool) -> Result<
    (bool, Option<Seq<char>>),
    CommandError,
> {
    match sub {
        None => Err(CommandError::MissingSubcommand),
        Some(s) => if s == "reload"@ {
            match value {
                None => Ok((true, None)),
                Some(v) => if !extra && !is_flag(v) {
                    Ok((true, Some(v)))
                } else {
                    Err(CommandError::InvalidArguments)
                },
            }
        } else if s == "debug"@ {
            if value == Some("vm"@) && !extra {
                Ok((false, None))
            } else {
                Err(CommandError::InvalidArguments)
            }
        } else {
            Err(CommandError::UnknownSubcommand)
        },
    }
}

/// The view of a parsed command: `(true, script)` for a reload, `(false,
/// None)` for `debug vm`.
pub open spec fn cli_view(c: Cli) -> (bool, Option<Seq<char>>) {
    match c.command {
        Command::Reload { script } => (true, match script {
            Some(s) => Some(s@),
            None => None,
        }),
        Command::Debug { command } => (false, None),
    }
}

/// The view of a parse result.
pub open spec fn parsed_view(r: Result<Cli, CommandError>) -> Result<(bool, Option<Seq<char>>), CommandError> {
    match r {
        Ok(c) => Ok(cli_view(c)),
        Err(e) => Err(e),
    }
}

/// The word at `i` of `args`, if there is one.
pub open spec fn word_at(args: Seq<Seq<char>>, i: int) -> Option<Seq<char>> {
    if 0 <= i < args.len() {
        Some(args[i])
    } else {
        None
    }
}

fn starts_with_dash(s: &str) -> (r: bool)
    ensures
        r == is_flag(s@),
{
    s.unicode_len() > 1 && s.get_char(0) == '-'
}

/// The command that a subcommand word, an optional value and the presence
/// of further words give.
fn parse_parts(sub: Option<&str>, value: Option<&str>, extra: bool) -> (r: Result<Cli, CommandError>)
    ensures
        parsed_view(r) == command_of(
            match sub { Some(s) => Some(s@), None => None },
            match value { Some(v) => Some(v@), None => None },
            extra,
        ),
{
    proof {
        reveal_strlit("vm");
    }
    match sub {
        None => Err(CommandError::MissingSubcommand),
        Some(s) => if text_eq(s, "reload") {
            match value {
                None => Ok(Cli { command: Command::Reload { script: None } }),
                Some(v) => if !extra && !starts_with_dash(v) {
                    Ok(Cli { command: Command::Reload { script: Some(v.to_owned()) } })
                } else {
                    Err(CommandError::InvalidArguments)
                },
            }
        } else if text_eq(s, "debug") {
            match value {
                Some(v) => if text_eq(v, "vm") && !extra {
                    Ok(Cli { command: Command::Debug { command: DebugCommand::Vm } })
                } else {
                    Err(CommandError::InvalidArguments)
                },
                None => Err(CommandError::InvalidArguments),
            }
        } else {
            Err(CommandError::UnknownSubcommand)
        },
    }
}

impl Cli {
    /// Parses a command line whose first word is the program name.
    pub fn try_parse_from(args: &[&str]) -> (r: Result<Cli, CommandError>)
        ensures
            parsed_view(r) == command_of(
                word_at(args@.map_values(|a: &str| a@), 1),
                word_at(args@.map_values(|a: &str| a@), 2),
                args@.len() > 3,
            ),
    {
        let n = args.len();
        let sub = if n > 1 { Some(args[1]) } else { None };
        let value = if n > 2 { Some(args[2]) } else { None };
        parse_parts(sub, value, n > 3)
    }
}

impl ManagerEvent {
    /// The manager request that a command makes.
    pub fn from_command(c: &Command) -> (r: ManagerEvent)
        ensures
            match c {
                Command::Reload { script: None } => r == ManagerEvent::ReloadAll,
                Command::Reload { script: Some(s) } => r matches ManagerEvent::Reload(n) && n@ == s@,
                Command::Debug { .. } => r == ManagerEvent::ListVms,
            },
    {
        match c {
            Command::Reload { script: None } => ManagerEvent::ReloadAll,
            Command::Reload { script: Some(s) } => ManagerEvent::Reload(s.clone()),
            Command::Debug { .. } => ManagerEvent::ListVms,
        }
    }
}

/// The characters that count as white space: the Unicode `White_Space`
/// property.
pub open spec fn is_white_space(c: char) -> bool {
    let u = c as u32;
    (9 <= u && u <= 13) || u == 32 || u == 0x85 || u == 0xA0 || u == 0x1680 || (0x2000 <= u && u
        <= 0x200A) || u == 0x2028 || u == 0x2029 || u == 0x202F || u == 0x205F || u == 0x3000
}

/// Scanning `s` from the left: the words completed so far, and the word in
/// progress.
pub open spec fn scan_words(s: Seq<char>) -> (Seq<Seq<char>>, Seq<char>)
    decreases s.len(),
{
    if s.len() == 0 {
        (Seq::empty(), Seq::empty())
    } else {
        let (done, cur) = scan_words(s.drop_last());
        if is_white_space(s.last()) {
            if cur.len() > 0 {
                (done.push(cur), Seq::empty())
            } else {
                (done, Seq::empty())
            }
        } else {
            (done, cur.push(s.last()))
        }
    }
}

/// The words of `s`: its maximal runs of characters that are not white
/// space, in order.
pub open spec fn words_of(s: Seq<char>) -> Seq<Seq<char>> {
    let (done, cur) = scan_words(s);
    if cur.len() > 0 {
        done.push(cur)
    } else {
        done
    }
}

fn white_space(c: char) -> (r: bool)
    ensures
        r == is_white_space(c),
{
    let u = c as u32;
    (9 <= u && u <= 13) || u == 32 || u == 0x85 || u == 0xA0 || u == 0x1680 || (0x2000 <= u && u
        <= 0x200A) || u == 0x2028 || u == 0x2029 || u == 0x202F || u == 0x205F || u == 0x3000
}

/// The words of `s`, owned.
pub fn split_words(s: &str) -> (r: Vec<String>)
    ensures
        r@.map_values(|w: String| w@) == words_of(s@),
{
    let n = s.unicode_len();
    let mut words: Vec<String> = Vec::new();
    let mut start: usize = 0;
    let mut i: usize = 0;
    while i < n
        invariant
            n == s@.len(),
            start <= i <= n,
            scan_words(s@.take(i as int)) == (words@.map_values(|w: String| w@), s@.subrange(
                start as int,
                i as int,
            )),
        decreases n - i,
    {
        let c = s.get_char(i);
        let ghost before = words@;
        proof {
            assert(s@.take(i + 1).drop_last() =~= s@.take(i as int));
            assert(s@.take(i + 1).last() == c);
        }
        if white_space(c) {
            if start < i {
                let w = s.substring_char(start, i).to_owned();
                words.push(w);
                assert(words@.map_values(|w: String| w@) =~= before.map_values(|w: String| w@).push(
                    s@.subrange(start as int, i as int),
                ));
            }
            start = i + 1;
        } else {
            assert(s@.subrange(start as int, i + 1) =~= s@.subrange(start as int, i as int).push(c));
        }
        i = i + 1;
        assert(s@.subrange(start as int, i as int).len() == 0 ==> s@.subrange(start as int, i as int)
            =~= Seq::<char>::empty());
    }
    let ghost before = words@;
    if start < n {
        let w = s.substring_char(start, n).to_owned();
        words.push(w);
        assert(words@.map_values(|w: String| w@) =~= before.map_values(|w: String| w@).push(
            s@.subrange(start as int, n as int),
        ));
    }
    assert(s@.take(n as int) =~= s@);
    words
}

/// Whether chat input is addressed to this manager: it begins with `/lua `.
pub open spec fn is_command_input(s: Seq<char>) -> bool {
    s.len() >= 5 && s.subrange(0, 5) == "/lua "@
}

fn has_command_prefix(s: &str) -> (r: bool)
    ensures
        r == is_command_input(s@),
{
    proof {
        reveal_strlit("/lua ");
    }
    let prefix = "/lua ";
    let n = s.unicode_len();
    if n < 5 {
        return false;
    }
    let mut i: usize = 0;
    while i < 5
        invariant
            n == s@.len(),
            n >= 5,
            prefix@ == "/lua "@,
            prefix@.len() == 5,
            i <= 5,
            forall|k: int| 0 <= k < i ==> s@[k] == prefix@[k],
        decreases 5 - i,
    {
        if s.get_char(i) != prefix.get_char(i) {
            assert(s@.subrange(0, 5)[i as int] != "/lua "@[i as int]);
            return false;
        }
        i = i + 1;
    }
    assert(s@.subrange(0, 5) =~= "/lua "@);
    true
}

/// What the words of a chat line ask of the manager: `(true, name)` a
/// reload (of everything when there is no name), `(false, None)` the list of
/// instances. After `reload` a third word names the script and later words
/// are ignored.
pub open spec fn chat_request(w: Seq<Seq<char>>) -> Option<(bool, Option<Seq<char>>)> {
    if w.len() >= 2 && w[1] == "reload"@ {
        if w.len() == 2 {
            Some((true, None))
        } else {
            Some((true, Some(w[2])))
        }
    } else if w.len() == 3 && w[1] == "debug"@ && w[2] == "vm"@ {
        Some((false, None))
    } else {
        None
    }
}

/// The view of a manager request, as `chat_request` gives it.
pub open spec fn event_view(e: ManagerEvent) -> (bool, Option<Seq<char>>) {
    match e {
        ManagerEvent::ReloadAll => (true, None),
        ManagerEvent::Reload(n) => (true, Some(n@)),
        ManagerEvent::ListVms => (false, None),
    }
}

/// The request that the words of a chat line make, if any.
pub fn chat_event(words: &Vec<String>) -> (r: Option<ManagerEvent>)
    ensures
        match r {
            None => chat_request(words@.map_values(|w: String| w@)) is None,
            Some(e) => chat_request(words@.map_values(|w: String| w@)) == Some(event_view(e)),
        },
{
    proof {
        reveal_strlit("vm");
    }
    let ghost w = words@.map_values(|w: String| w@);
    let n = words.len();
    if n >= 2 && text_eq(words[1].as_str(), "reload") {
        if n == 2 {
            Some(ManagerEvent::ReloadAll)
        } else {
            Some(ManagerEvent::Reload(words[2].clone()))
        }
    } else if n == 3 && text_eq(words[1].as_str(), "debug") && text_eq(words[2].as_str(), "vm") {
        Some(ManagerEvent::ListVms)
    } else {
        None
    }
}

/// The request that a line of chat input makes: none unless the line is
/// addressed to this manager.
pub fn parse_chat_input(input: &str) -> (r: Option<ManagerEvent>)
    ensures
        !is_command_input(input@) ==> r is None,
        is_command_input(input@) ==> match r {
            None => chat_request(words_of(input@)) is None,
            Some(e) => chat_request(words_of(input@)) == Some(event_view(e)),
        },
{
    if !has_command_prefix(input) {
        return None;
    }
    let words = split_words(input);
    chat_event(&words)
}

} // verus!
