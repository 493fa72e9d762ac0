//! The configuration, as it is given on the command line.

use vstd::prelude::*;
use vstd::string::StringExecFns;

use crate::model;
use crate::number;
use crate::number::NumberFault;
use crate::text;
use crate::text::same_text;

verus! {

/// The socket that events come from, if none is named.
pub const DEFAULT_SOCKET: &'static str = "socket.event";

/// How the scheduler is set up and where its events come from.
#[derive(Debug, Clone)]
pub struct Config {
    pub cpus: usize,
    pub quanta: i64,
    pub socket_path: String,
    pub use_stdin: bool,
}

/// What a [`Config`] holds.
pub struct ConfigView {
    pub cpus: usize,
    pub quanta: i64,
    pub socket_path: Seq<char>,
    pub use_stdin: bool,
}

impl View for Config {
    type V = ConfigView;

    open spec fn view(&self) -> ConfigView {
        ConfigView {
            cpus: self.cpus,
            quanta: self.quanta,
            socket_path: self.socket_path@,
            use_stdin: self.use_stdin,
        }
    }
}

/// An argument that is followed by a value.
#[derive(Debug, Clone, Copy, PartialEq, Eq, Structural)]
pub enum Flag {
    Cpus,
    Quanta,
    Socket,
}

impl Flag {
    /// The argument as it is written.
    pub open spec fn title(self) -> Seq<char> {
        match self {
            Flag::Cpus => "--cpus"@,
            Flag::Quanta => "--quanta"@,
            Flag::Socket => "--socket"@,
        }
    }

    /// The argument as it is written.
    pub fn name(self) -> (name: &'static str)
        ensures
            name@ == self.title(),
    {
        match self {
            Flag::Cpus => "--cpus",
            Flag::Quanta => "--quanta",
            Flag::Socket => "--socket",
        }
    }
}

/// Why a command line is refused.
#[derive(Debug)]
pub enum ArgError {
    /// The command line ends where a value should follow.
    NeedsValue(Flag),
    /// The value of an argument is not a number, or out of range.
    Number { flag: Flag, value: String, fault: NumberFault },
    /// An argument is not known.
    Unknown(String),
    /// An argument that must be there is not.
    Missing(Flag),
}

/// What an [`ArgError`] says.
pub enum ArgErrorView {
    NeedsValue(Flag),
    Number { flag: Flag, value: Seq<char>, fault: NumberFault },
    Unknown(Seq<char>),
    Missing(Flag),
}

impl View for ArgError {
    type V = ArgErrorView;

    open spec fn view(&self) -> ArgErrorView {
        match *self {
            ArgError::NeedsValue(flag) => ArgErrorView::NeedsValue(flag),
            ArgError::Number { flag, value, fault } => ArgErrorView::Number {
                flag,
                value: value@,
                fault,
            },
            ArgError::Unknown(arg) => ArgErrorView::Unknown(arg@),
            ArgError::Missing(flag) => ArgErrorView::Missing(flag),
        }
    }
}

/// What a command line is refused for, apart from what is wrong with a number.
pub enum Refusal {
    NeedsValue(Flag),
    Number { flag: Flag, value: Seq<char> },
    Unknown(Seq<char>),
    Missing(Flag),
}

impl ArgErrorView {
    /// The text of the error.
    pub open spec fn text(self) -> Seq<char> {
        match self {
            ArgErrorView::NeedsValue(flag) => flag.title() + " needs value"@,
            ArgErrorView::Number { flag, value, fault } => fault.text(),
            ArgErrorView::Unknown(arg) => "unknown arg: "@ + arg,
            ArgErrorView::Missing(flag) => "missing "@ + flag.title(),
        }
    }

    /// What the command line is refused for.
    pub open spec fn refusal(self) -> Refusal {
        match self {
            ArgErrorView::NeedsValue(flag) => Refusal::NeedsValue(flag),
            ArgErrorView::Number { flag, value, fault } => Refusal::Number { flag, value },
            ArgErrorView::Unknown(arg) => Refusal::Unknown(arg),
            ArgErrorView::Missing(flag) => Refusal::Missing(flag),
        }
    }

    /// If the error speaks of a number, it says what is wrong with it.
    pub open spec fn names_fault(self) -> bool {
        match self {
            ArgErrorView::Number { flag: Flag::Cpus, value, fault } => number::usize_fault(
                value,
                fault,
            ),
            ArgErrorView::Number { flag: Flag::Quanta, value, fault } => number::i64_fault(
                value,
                fault,
            ),
            ArgErrorView::Number { flag: Flag::Socket, .. } => false,
            _ => true,
        }
    }
}

impl ArgError {
    /// The text of the error.
    pub fn message(&self) -> (message: String)
        ensures
            message@ == self@.text(),
    {
        match self {
            ArgError::NeedsValue(flag) => flag.name().to_owned().concat(" needs value"),
            ArgError::Number { flag: _, value: _, fault } => fault.message().to_owned(),
            ArgError::Unknown(arg) => "unknown arg: ".to_owned().concat(arg.as_str()),
            ArgError::Missing(flag) => "missing ".to_owned().concat(flag.name()),
        }
    }
}

/// What the arguments so far say.
pub struct Given {
    pub cpus: Option<usize>,
    pub quanta: Option<i64>,
    pub socket: Option<Seq<char>>,
    pub use_stdin: bool,
}

/// Reads arguments from the left. Where one is given again, the last one counts.
pub open spec fn scan(args: Seq<Seq<char>>, given: Given) -> Result<Given, Refusal>
    decreases args.len(),
{
    if args.len() == 0 {
        Ok(given)
    } else if args[0] == "--cpus"@ {
        if args.len() == 1 {
            Err(Refusal::NeedsValue(Flag::Cpus))
        } else {
            match number::usize_in(args[1]) {
                Some(n) => scan(args.skip(2), Given { cpus: Some(n), ..given }),
                None => Err(Refusal::Number { flag: Flag::Cpus, value: args[1] }),
            }
        }
    } else if args[0] == "--quanta"@ {
        if args.len() == 1 {
            Err(Refusal::NeedsValue(Flag::Quanta))
        } else {
            match number::i64_in(args[1]) {
                Some(n) => scan(args.skip(2), Given { quanta: Some(n), ..given }),
                None => Err(Refusal::Number { flag: Flag::Quanta, value: args[1] }),
            }
        }
    } else if args[0] == "--socket"@ {
        if args.len() == 1 {
            Err(Refusal::NeedsValue(Flag::Socket))
        } else {
            scan(args.skip(2), Given { socket: Some(args[1]), ..given })
        }
    } else if args[0] == "--stdin"@ {
        scan(args.skip(1), Given { use_stdin: true, ..given })
    } else {
        Err(Refusal::Unknown(args[0]))
    }
}

/// Nothing is given yet.
pub open spec fn nothing_given() -> Given {
    Given { cpus: None, quanta: None, socket: None, use_stdin: false }
}

/// The configuration that a command line asks for, or why it is refused.
pub open spec fn config_from(args: Seq<Seq<char>>) -> Result<ConfigView, Refusal> {
    match scan(args, nothing_given()) {
        Err(e) => Err(e),
        Ok(given) => match (given.cpus, given.quanta) {
            (None, _) => Err(Refusal::Missing(Flag::Cpus)),
            (_, None) => Err(Refusal::Missing(Flag::Quanta)),
            (Some(cpus), Some(quanta)) => Ok(
                ConfigView {
                    cpus,
                    quanta,
                    socket_path: given.socket.unwrap_or(DEFAULT_SOCKET@),
                    use_stdin: given.use_stdin,
                },
            ),
        },
    }
}

/// Reads the arguments of a command line, without the name of the program. Where a value holds
/// something else behind digits that are out of range already, the number parser decides which of
/// the two faults is told.
pub fn parse_args(args: &[String]) -> (config: Result<Config, ArgError>)
    ensures
        match config {
            Ok(config) => config_from(text::texts(args@)) == Ok::<ConfigView, Refusal>(config@),
            Err(e) => config_from(text::texts(args@)) == Err::<ConfigView, Refusal>(e@.refusal())
                && e@.names_fault(),
        },
{
    let ghost all = text::texts(args@);
    let mut cpus: Option<usize> = None;
    let mut quanta: Option<i64> = None;
    let mut socket: Option<String> = None;
    let mut use_stdin = false;
    let mut i: usize = 0;
    assert(all.skip(0) =~= all);
    while i < args.len()
        invariant
            i <= args@.len(),
            all == text::texts(args@),
            scan(
                all.skip(i as int),
                Given { cpus, quanta, socket: model::text_of(socket), use_stdin },
            ) == scan(all, nothing_given()),
        decreases args@.len() - i,
    {
        let ghost rest = all.skip(i as int);
        assert(rest[0] == args@[i as int]@);
        assert(rest.skip(1) =~= all.skip(i + 1));
        let arg = args[i].as_str();
        if same_text(arg, "--stdin") {
            proof {
                distinct_arguments();
            }
            use_stdin = true;
            i = i + 1;
            continue;
        }
        let flag = if same_text(arg, "--cpus") {
            Flag::Cpus
        } else if same_text(arg, "--quanta") {
            Flag::Quanta
        } else if same_text(arg, "--socket") {
            Flag::Socket
        } else {
            return Err(ArgError::Unknown(args[i].clone()));
        };
        if i + 1 == args.len() {
            return Err(ArgError::NeedsValue(flag));
        }
        assert(rest[1] == args@[i + 1]@);
        assert(rest.skip(2) =~= all.skip(i + 2));
        let value = args[i + 1].as_str();
        match flag {
            Flag::Cpus => match number::parse_usize(value) {
                Ok(n) => {
                    cpus = Some(n);
                },
                Err(fault) => {
                    return Err(ArgError::Number { flag, value: value.to_owned(), fault });
                },
            },
            Flag::Quanta => match number::parse_i64(value) {
                Ok(n) => {
                    quanta = Some(n);
                },
                Err(fault) => {
                    return Err(ArgError::Number { flag, value: value.to_owned(), fault });
                },
            },
            Flag::Socket => {
                socket = Some(value.to_owned());
            },
        }
        i = i + 2;
    }
    assert(all.skip(i as int) =~= Seq::empty());
    let cpus: usize = match cpus {
        Some(n) => n,
        None => {
            return Err(ArgError::Missing(Flag::Cpus));
        },
    };
    let quanta: i64 = match quanta {
        Some(n) => n,
        None => {
            return Err(ArgError::Missing(Flag::Quanta));
        },
    };
    let socket_path = match socket {
        Some(path) => path,
        None => DEFAULT_SOCKET.to_owned(),
    };
    Ok(Config { cpus, quanta, socket_path, use_stdin })
}

/// The arguments are written differently.
proof fn distinct_arguments()
    ensures
        "--stdin"@ != "--cpus"@,
        "--stdin"@ != "--quanta"@,
        "--stdin"@ != "--socket"@,
        "--cpus"@ != "--quanta"@,
        "--cpus"@ != "--socket"@,
        "--quanta"@ != "--socket"@,
{
    reveal_strlit("--stdin");
    reveal_strlit("--cpus");
    reveal_strlit("--quanta");
    reveal_strlit("--socket");
    assert("--cpus"@.len() == 6);
    assert("--stdin"@.len() == 7);
    assert("--quanta"@[2] == 'q');
    assert("--socket"@[2] == 's');
    assert("--quanta"@.len() == 8);
    assert("--socket"@.len() == 8);
}

/// A command line that asks for `c`.
pub open spec fn args_of(c: ConfigView) -> Seq<Seq<char>> {
    let stated = seq![
        "--cpus"@,
        number::decimal(c.cpus as nat),
        "--quanta"@,
        number::signed_decimal(c.quanta as int),
        "--socket"@,
        c.socket_path,
    ];
    if c.use_stdin {
        stated.push("--stdin"@)
    } else {
        stated
    }
}

/// Every configuration can be asked for.
pub proof fn every_config_has_a_command_line(c: ConfigView)
    ensures
        config_from(args_of(c)) == Ok::<ConfigView, Refusal>(c),
{
    let args = args_of(c);
    distinct_arguments();
    number::decimal_stands_for_number(c.cpus as nat);
    number::signed_decimal_stands_for_number(c.quanta as int);
    let none = nothing_given();
    let first = Given { cpus: Some(c.cpus), ..none };
    let second = Given { quanta: Some(c.quanta), ..first };
    let third = Given { socket: Some(c.socket_path), ..second };
    assert(scan(args, none) == scan(args.skip(2), first));
    assert(args.skip(2)[0] == "--quanta"@);
    assert(scan(args.skip(2), first) == scan(args.skip(2).skip(2), second));
    assert(args.skip(2).skip(2)[0] == "--socket"@);
    let rest = args.skip(2).skip(2).skip(2);
    assert(scan(args.skip(2).skip(2), second) == scan(rest, third));
    if c.use_stdin {
        assert(rest =~= seq!["--stdin"@]);
        assert(rest.skip(1) =~= Seq::empty());
        assert(scan(rest.skip(1), Given { use_stdin: true, ..third }) == Ok::<Given, Refusal>(
            Given { use_stdin: true, ..third },
        ));
    } else {
        assert(rest =~= Seq::empty());
    }
}

/// A configuration and an error show what they hold, and an error tells of nothing that is not so:
/// the fault of a number is one that the value has.
pub proof fn errors_tell_what_is_wrong(config: Config, e: ArgError)
    ensures
        config@.cpus == config.cpus,
        config@.quanta == config.quanta,
        config@.socket_path == config.socket_path@,
        config@.use_stdin == config.use_stdin,
        match e {
            ArgError::NeedsValue(flag) => e@.refusal() == Refusal::NeedsValue(flag),
            ArgError::Number { flag, value, fault } => e@.refusal() == (Refusal::Number {
                flag,
                value: value@,
            }) && (e@.names_fault() <==> match flag {
                Flag::Cpus => number::usize_fault(value@, fault),
                Flag::Quanta => number::i64_fault(value@, fault),
                Flag::Socket => false,
            }),
            ArgError::Unknown(arg) => e@.refusal() == Refusal::Unknown(arg@),
            ArgError::Missing(flag) => e@.refusal() == Refusal::Missing(flag),
        },
{
}

/// The text of an error names the argument that it is about, or what is wrong with a number.
pub proof fn texts_name_the_argument(arg: Seq<char>, value: Seq<char>, flag: Flag)
    ensures
        ArgErrorView::NeedsValue(Flag::Cpus).text() == "--cpus"@ + " needs value"@,
        ArgErrorView::NeedsValue(Flag::Quanta).text() == "--quanta"@ + " needs value"@,
        ArgErrorView::NeedsValue(Flag::Socket).text() == "--socket"@ + " needs value"@,
        ArgErrorView::Missing(Flag::Cpus).text() == "missing "@ + "--cpus"@,
        ArgErrorView::Missing(Flag::Quanta).text() == "missing "@ + "--quanta"@,
        ArgErrorView::Unknown(arg).text() == "unknown arg: "@ + arg,
        (ArgErrorView::Number { flag, value, fault: NumberFault::Empty }).text()
            == "cannot parse integer from empty string"@,
        (ArgErrorView::Number { flag, value, fault: NumberFault::InvalidDigit }).text()
            == "invalid digit found in string"@,
        (ArgErrorView::Number { flag, value, fault: NumberFault::TooLarge }).text()
            == "number too large to fit in target type"@,
        (ArgErrorView::Number { flag, value, fault: NumberFault::TooSmall }).text()
            == "number too small to fit in target type"@,
{
}

/// What an argument in front of others says is what it says, and the others count on top of it.
/// "--cpus", "--quanta" and "--socket" take the next argument as their value. Where it is missing,
/// or no number where there should be one, the command line is refused for that. So it is for an
/// argument that is not known.
pub proof fn arguments_count_from_the_left(
    given: Given,
    value: Seq<char>,
    rest: Seq<Seq<char>>,
    arg: Seq<char>,
)
    ensures
        scan(Seq::empty(), given) == Ok::<Given, Refusal>(given),
        scan(seq!["--stdin"@] + rest, given) == scan(rest, Given { use_stdin: true, ..given }),
        scan(seq!["--socket"@, value] + rest, given) == scan(
            rest,
            Given { socket: Some(value), ..given },
        ),
        scan(seq!["--cpus"@, value] + rest, given) == match number::usize_in(value) {
            Some(n) => scan(rest, Given { cpus: Some(n), ..given }),
            None => Err(Refusal::Number { flag: Flag::Cpus, value }),
        },
        scan(seq!["--quanta"@, value] + rest, given) == match number::i64_in(value) {
            Some(n) => scan(rest, Given { quanta: Some(n), ..given }),
            None => Err(Refusal::Number { flag: Flag::Quanta, value }),
        },
        scan(seq!["--cpus"@], given) == Err::<Given, Refusal>(Refusal::NeedsValue(Flag::Cpus)),
        scan(seq!["--quanta"@], given) == Err::<Given, Refusal>(Refusal::NeedsValue(Flag::Quanta)),
        scan(seq!["--socket"@], given) == Err::<Given, Refusal>(Refusal::NeedsValue(Flag::Socket)),
        arg != "--cpus"@ && arg != "--quanta"@ && arg != "--socket"@ && arg != "--stdin"@ ==> scan(
            seq![arg] + rest,
            given,
        ) == Err::<Given, Refusal>(Refusal::Unknown(arg)),
{
    distinct_arguments();
    let a = seq!["--stdin"@] + rest;
    assert(a[0] == "--stdin"@);
    assert(a.skip(1) =~= rest);
    let b = seq!["--socket"@, value] + rest;
    assert(b[0] == "--socket"@ && b[1] == value);
    assert(b.skip(2) =~= rest);
    let c = seq!["--cpus"@, value] + rest;
    assert(c[0] == "--cpus"@ && c[1] == value);
    assert(c.skip(2) =~= rest);
    let d = seq!["--quanta"@, value] + rest;
    assert(d[0] == "--quanta"@ && d[1] == value);
    assert(d.skip(2) =~= rest);
    assert((seq![arg] + rest)[0] == arg);
}

/// A command line that can be read must have said how many CPUs there are and how long a quantum is,
/// the first before the second. The socket is "socket.event" if none was named, and standard input
/// is used if that was asked for.
pub proof fn configs_need_cpus_and_quanta(args: Seq<Seq<char>>)
    ensures
        match scan(args, Given { cpus: None, quanta: None, socket: None, use_stdin: false }) {
            Err(e) => config_from(args) == Err::<ConfigView, Refusal>(e),
            Ok(given) => {
                &&& given.cpus is None ==> config_from(args) == Err::<ConfigView, Refusal>(
                    Refusal::Missing(Flag::Cpus),
                )
                &&& given.cpus is Some && given.quanta is None ==> config_from(args) == Err::<
                    ConfigView,
                    Refusal,
                >(Refusal::Missing(Flag::Quanta))
                &&& given.cpus is Some && given.quanta is Some ==> (config_from(args) matches Ok(
                    config,
                ) && {
                    &&& Some(config.cpus) == given.cpus
                    &&& Some(config.quanta) == given.quanta
                    &&& given.socket matches Some(path) ==> config.socket_path == path
                    &&& given.socket is None ==> config.socket_path == "socket.event"@
                    &&& config.use_stdin == given.use_stdin
                })
            },
        },
{
}

} // verus!
