//! The arguments of the program.
use crate::config::{PluginConfig, Settings};
use crate::directory::views;
use crate::number::{decimal, lemma_decimal_is_read_back, parse, parse_u64, to_decimal};
use crate::text::{same_text, text_of};
use vstd::prelude::*;
use vstd::slice::slice_subrange;

verus! {

/// The options of a command.
#[derive(Debug, Clone, Copy, PartialEq, Eq, Structural)]
pub struct Options {
    /// The time between two syncs, in seconds.
    pub interval: Option<u64>,
    pub force: bool,
    pub quiet: bool,
}

/// What the program is to do.
#[derive(Debug, Clone, Copy, PartialEq, Eq, Structural)]
pub enum CliCommand {
    Start(Options),
    Autostart(Options),
    Watch(Options),
    Stop,
    Status,
    Sync(Options),
    Help,
}

/// Why arguments are refused.
#[derive(Debug, PartialEq, Eq)]
pub enum ArgumentError {
    /// An option is not Unicode.
    NotUnicode,
    /// Nothing follows `--interval-seconds`.
    MissingInterval,
    /// What follows `--interval-seconds` is no number.
    InvalidInterval(String),
    /// The number that follows `--interval-seconds` is zero.
    ZeroInterval,
    UnknownOption(String),
    UnknownCommand(String),
}

/// `ArgumentError`, with its strings as sequences.
pub enum ArgumentFault {
    NotUnicode,
    MissingInterval,
    InvalidInterval(Seq<char>),
    ZeroInterval,
    UnknownOption(Seq<char>),
    UnknownCommand(Seq<char>),
}

impl View for ArgumentError {
    type V = ArgumentFault;

    open spec fn view(&self) -> ArgumentFault {
        match self {
            ArgumentError::NotUnicode => ArgumentFault::NotUnicode,
            ArgumentError::MissingInterval => ArgumentFault::MissingInterval,
            ArgumentError::InvalidInterval(s) => ArgumentFault::InvalidInterval(s@),
            ArgumentError::ZeroInterval => ArgumentFault::ZeroInterval,
            ArgumentError::UnknownOption(s) => ArgumentFault::UnknownOption(s@),
            ArgumentError::UnknownCommand(s) => ArgumentFault::UnknownCommand(s@),
        }
    }
}

/// Arguments as sequences; `None` stands for one that is not Unicode.
pub open spec fn argument_views(args: Seq<Option<String>>) -> Seq<Option<Seq<char>>> {
    args.map_values(|a: Option<String>| text_of(a))
}

/// The options that arguments give, on top of those that came before.
pub open spec fn options_of(args: Seq<Option<Seq<char>>>, given: Options) -> Result<
    Options,
    ArgumentFault,
>
    decreases args.len(),
{
    if args.len() == 0 {
        Ok(given)
    } else {
        match args[0] {
            None => Err(ArgumentFault::NotUnicode),
            Some(name) => if name == "--interval-seconds"@ {
                if args.len() == 1 || args[1] is None {
                    Err(ArgumentFault::MissingInterval)
                } else {
                    match parse(args[1]->0, u64::MAX as nat) {
                        None => Err(ArgumentFault::InvalidInterval(args[1]->0)),
                        Some(seconds) => if seconds == 0 {
                            Err(ArgumentFault::ZeroInterval)
                        } else {
                            options_of(
                                args.skip(2),
                                Options { interval: Some(seconds as u64), ..given },
                            )
                        },
                    }
                }
            } else if name == "--force"@ {
                options_of(args.skip(1), Options { force: true, ..given })
            } else if name == "--quiet"@ {
                options_of(args.skip(1), Options { quiet: true, ..given })
            } else {
                Err(ArgumentFault::UnknownOption(name))
            },
        }
    }
}

/// No options.
pub open spec fn no_options() -> Options {
    Options { interval: None, force: false, quiet: false }
}

/// The command of that name.
pub open spec fn named_command(name: Seq<char>, options: Options) -> Result<
    CliCommand,
    ArgumentFault,
> {
    if name == "start"@ {
        Ok(CliCommand::Start(options))
    } else if name == "autostart"@ {
        Ok(CliCommand::Autostart(options))
    } else if name == "watch"@ {
        Ok(CliCommand::Watch(options))
    } else if name == "stop"@ {
        Ok(CliCommand::Stop)
    } else if name == "status"@ {
        Ok(CliCommand::Status)
    } else if name == "sync"@ {
        Ok(CliCommand::Sync(options))
    } else if name == "help"@ || name == "--help"@ || name == "-h"@ {
        Ok(CliCommand::Help)
    } else {
        Err(ArgumentFault::UnknownCommand(name))
    }
}

/// The command that arguments give. Without a command that is Unicode it is a
/// question for help; a fault of an option comes before one of the command.
pub open spec fn command_of(args: Seq<Option<Seq<char>>>) -> Result<CliCommand, ArgumentFault> {
    if args.len() == 0 || args[0] is None {
        Ok(CliCommand::Help)
    } else {
        match options_of(args.skip(1), no_options()) {
            Err(fault) => Err(fault),
            Ok(options) => named_command(args[0]->0, options),
        }
    }
}

/// The options that arguments give.
pub fn parse_options(args: &[Option<String>]) -> (r: Result<Options, ArgumentError>)
    ensures
        match options_of(argument_views(args@), no_options()) {
            Ok(options) => r == Ok::<Options, ArgumentError>(options),
            Err(fault) => r matches Err(e) && e@ == fault,
        },
{
    let ghost all = argument_views(args@);
    let mut options = Options { interval: None, force: false, quiet: false };
    let mut index: usize = 0;
    assert(all.skip(0) =~= all);
    while index < args.len()
        invariant
            all == argument_views(args@),
            index <= args@.len(),
            options_of(all, no_options()) == options_of(all.skip(index as int), options),
        decreases args@.len() - index,
    {
        let ghost rest = all.skip(index as int);
        assert(rest[0] == text_of(args@[index as int]));
        let name = match &args[index] {
            Some(name) => name.as_str(),
            None => {
                return Err(ArgumentError::NotUnicode);
            },
        };
        if same_text(name, "--interval-seconds") {
            if index + 1 >= args.len() {
                return Err(ArgumentError::MissingInterval);
            }
            assert(rest[1] == text_of(args@[index + 1]));
            let value = match &args[index + 1] {
                Some(value) => value.as_str(),
                None => {
                    return Err(ArgumentError::MissingInterval);
                },
            };
            let seconds = match parse_u64(value) {
                Some(seconds) => seconds,
                None => {
                    return Err(ArgumentError::InvalidInterval(value.to_owned()));
                },
            };
            if seconds == 0 {
                return Err(ArgumentError::ZeroInterval);
            }
            options.interval = Some(seconds);
            assert(rest.skip(2) =~= all.skip(index + 2));
            index += 2;
        } else if same_text(name, "--force") {
            options.force = true;
            assert(rest.skip(1) =~= all.skip(index + 1));
            index += 1;
        } else if same_text(name, "--quiet") {
            options.quiet = true;
            assert(rest.skip(1) =~= all.skip(index + 1));
            index += 1;
        } else {
            return Err(ArgumentError::UnknownOption(name.to_owned()));
        }
    }
    Ok(options)
}

/// The command that arguments give; `None` stands for an argument that is not
/// Unicode.
pub fn parse_args(args: &[Option<String>]) -> (r: Result<CliCommand, ArgumentError>)
    ensures
        match command_of(argument_views(args@)) {
            Ok(command) => r == Ok::<CliCommand, ArgumentError>(command),
            Err(fault) => r matches Err(e) && e@ == fault,
        },
{
    if args.len() == 0 {
        return Ok(CliCommand::Help);
    }
    assert(argument_views(args@)[0] == text_of(args@[0]));
    let name = match &args[0] {
        Some(name) => name.as_str(),
        None => {
            return Ok(CliCommand::Help);
        },
    };
    let rest = slice_subrange(args, 1, args.len());
    assert(argument_views(rest@) =~= argument_views(args@).skip(1));
    let options = match parse_options(rest) {
        Ok(options) => options,
        Err(e) => {
            return Err(e);
        },
    };
    if same_text(name, "start") {
        Ok(CliCommand::Start(options))
    } else if same_text(name, "autostart") {
        Ok(CliCommand::Autostart(options))
    } else if same_text(name, "watch") {
        Ok(CliCommand::Watch(options))
    } else if same_text(name, "stop") {
        Ok(CliCommand::Stop)
    } else if same_text(name, "status") {
        Ok(CliCommand::Status)
    } else if same_text(name, "sync") {
        Ok(CliCommand::Sync(options))
    } else if same_text(name, "help") || same_text(name, "--help") || same_text(name, "-h") {
        Ok(CliCommand::Help)
    } else {
        Err(ArgumentError::UnknownCommand(name.to_owned()))
    }
}

/// The time between two syncs, in seconds: that of the options, else that of the
/// settings.
pub open spec fn interval_of(options: Options, config: Settings) -> u64 {
    match options.interval {
        Some(seconds) => seconds,
        None => config.interval_seconds,
    }
}

/// The time between two syncs, in seconds.
pub fn effective_interval(options: &Options, config: &PluginConfig) -> (seconds: u64)
    ensures
        seconds == interval_of(*options, config@),
{
    match options.interval {
        Some(seconds) => seconds,
        None => config.interval_seconds,
    }
}

// -------------------------------------------------------------------- the watcher

/// The arguments with which the watcher is started.
pub open spec fn watcher_arguments(options: Options) -> Seq<Seq<char>> {
    let interval = match options.interval {
        Some(seconds) => seq!["--interval-seconds"@, decimal(seconds as nat)],
        None => seq![],
    };
    let force = if options.force {
        seq!["--force"@]
    } else {
        seq![]
    };
    seq!["watch"@] + interval + force
}

/// The arguments with which the watcher is started.
pub fn watch_args(options: &Options) -> (args: Vec<String>)
    ensures
        views(args@) == watcher_arguments(*options),
{
    let mut args: Vec<String> = Vec::new();
    args.push("watch".to_owned());
    if let Some(seconds) = options.interval {
        args.push("--interval-seconds".to_owned());
        args.push(to_decimal(seconds));
    }
    if options.force {
        args.push("--force".to_owned());
    }
    assert(views(args@) =~= watcher_arguments(*options));
    args
}

/// The watcher understands the arguments that it is started with: it watches with
/// the interval and the force of the options.
pub proof fn law_watcher_gets_the_options(options: Options)
    requires
        options.interval != Some(0u64),
    ensures
        command_of(watcher_arguments(options).map_values(|a: Seq<char>| Some(a))) == Ok::<
            CliCommand,
            ArgumentFault,
        >(CliCommand::Watch(Options { quiet: false, ..options })),
{
    reveal_strlit("--interval-seconds");
    reveal_strlit("--force");
    reveal_strlit("start");
    reveal_strlit("autostart");
    reveal_strlit("watch");
    let args = watcher_arguments(options).map_values(|a: Seq<char>| Some(a));
    let rest = args.skip(1);
    assert(args[0] == Some("watch"@));
    assert("watch"@.len() != "autostart"@.len());
    assert("watch"@[0] != "start"@[0]);
    assert("--force"@.len() != "--interval-seconds"@.len());
    let end = Seq::<Option<Seq<char>>>::empty();
    let given = Options { interval: options.interval, force: false, quiet: false };
    let after = if options.force {
        seq![Some("--force"@)]
    } else {
        end
    };
    assert(options_of(after, given) == Ok::<Options, ArgumentFault>(
        Options { quiet: false, ..options },
    )) by {
        if options.force {
            assert(after.skip(1) =~= end);
            assert(options_of(end, Options { force: true, ..given }) is Ok);
        }
    }
    match options.interval {
        Some(seconds) => {
            lemma_decimal_is_read_back(seconds as nat, u64::MAX as nat);
            assert(rest =~= seq![Some("--interval-seconds"@), Some(decimal(seconds as nat))] + after);
            assert(rest.skip(2) =~= after);
        },
        None => {
            assert(rest =~= after);
        },
    }
}

// -------------------------------------------------------------------------- laws

/// The words of the command line differ, in their lengths or in a letter.
proof fn lemma_words_differ()
    ensures
        "--interval-seconds"@.len() == 18,
        "--force"@.len() == 7,
        "--quiet"@.len() == 7,
        "--force"@[2] == 'f',
        "--quiet"@[2] == 'q',
        "start"@.len() == 5,
        "start"@[0] == 's',
        "autostart"@.len() == 9,
        "watch"@.len() == 5,
        "watch"@[0] == 'w',
        "stop"@.len() == 4,
        "stop"@[1] == 't',
        "status"@.len() == 6,
        "status"@[0] == 's',
        "sync"@.len() == 4,
        "sync"@[1] == 'y',
        "help"@.len() == 4,
        "help"@[1] == 'e',
        "--help"@.len() == 6,
        "--help"@[0] == '-',
        "-h"@.len() == 2,
{
    reveal_strlit("--interval-seconds");
    reveal_strlit("--force");
    reveal_strlit("--quiet");
    reveal_strlit("start");
    reveal_strlit("autostart");
    reveal_strlit("watch");
    reveal_strlit("stop");
    reveal_strlit("status");
    reveal_strlit("sync");
    reveal_strlit("help");
    reveal_strlit("--help");
    reveal_strlit("-h");
}

/// Arguments that are accepted can be followed by more: these are then read on top of
/// the options that the first ones give.
proof fn lemma_options_go_on(
    args: Seq<Option<Seq<char>>>,
    more: Seq<Option<Seq<char>>>,
    given: Options,
)
    ensures
        options_of(args, given) matches Ok(options) ==> options_of(args + more, given)
            == options_of(more, options),
    decreases args.len(),
{
    if args.len() == 0 {
        assert(args + more =~= more);
    } else {
        assert((args + more)[0] == args[0]);
        assert((args + more).skip(1) =~= args.skip(1) + more);
        if args.len() > 1 {
            assert((args + more)[1] == args[1]);
            assert((args + more).skip(2) =~= args.skip(2) + more);
            if args[0] == Some("--interval-seconds"@) && args[1] is Some {
                if let Some(seconds) = parse(args[1]->0, u64::MAX as nat) {
                    lemma_options_go_on(
                        args.skip(2),
                        more,
                        Options { interval: Some(seconds as u64), ..given },
                    );
                }
            }
        }
        lemma_options_go_on(args.skip(1), more, Options { force: true, ..given });
        lemma_options_go_on(args.skip(1), more, Options { quiet: true, ..given });
    }
}

/// Without arguments no option is set. Every option that is added to arguments that
/// are accepted is accepted too: it sets what it stands for, the last interval
/// counts, and nothing else changes.
pub proof fn law_every_option_counts(args: Seq<Option<Seq<char>>>, value: Seq<char>, seconds: nat)
    requires
        parse(value, u64::MAX as nat) == Some(seconds),
        seconds > 0,
    ensures
        ({
            let none = Options { interval: None, force: false, quiet: false };
            &&& options_of(seq![], none) == Ok::<Options, ArgumentFault>(none)
            &&& options_of(args, none) matches Ok(options) ==> {
                &&& options_of(args.push(Some("--force"@)), none) == Ok::<Options, ArgumentFault>(
                    Options { force: true, ..options },
                )
                &&& options_of(args.push(Some("--quiet"@)), none) == Ok::<Options, ArgumentFault>(
                    Options { quiet: true, ..options },
                )
                &&& options_of(args.push(Some("--interval-seconds"@)).push(Some(value)), none)
                    == Ok::<Options, ArgumentFault>(
                    Options { interval: Some(seconds as u64), ..options },
                )
            }
        }),
{
    lemma_words_differ();
    let none = Options { interval: None, force: false, quiet: false };
    let force = seq![Some("--force"@)];
    let quiet = seq![Some("--quiet"@)];
    let interval = seq![Some("--interval-seconds"@), Some(value)];
    lemma_options_go_on(args, force, none);
    lemma_options_go_on(args, quiet, none);
    lemma_options_go_on(args, interval, none);
    assert(args + force =~= args.push(Some("--force"@)));
    assert(args + quiet =~= args.push(Some("--quiet"@)));
    assert(args + interval =~= args.push(Some("--interval-seconds"@)).push(Some(value)));
    assert(force.skip(1) =~= seq![]);
    assert(quiet.skip(1) =~= seq![]);
    assert(interval.skip(2) =~= seq![]);
    if let Ok(options) = options_of(args, none) {
        assert(options_of(force.skip(1), Options { force: true, ..options }) is Ok);
        assert(options_of(quiet.skip(1), Options { quiet: true, ..options }) is Ok);
        assert(options_of(
            interval.skip(2),
            Options { interval: Some(seconds as u64), ..options },
        ) is Ok);
    }
}

/// What follows arguments that are accepted and is no option is refused with its
/// reason: an argument that is not Unicode, an interval that is missing, no number or
/// zero, and a word that is no option. Whatever comes after it does not matter.
pub proof fn law_other_options_are_refused(
    args: Seq<Option<Seq<char>>>,
    word: Seq<char>,
    more: Seq<Option<Seq<char>>>,
)
    requires
        options_of(args, Options { interval: None, force: false, quiet: false }) is Ok,
    ensures
        ({
            let none = Options { interval: None, force: false, quiet: false };
            let interval = args.push(Some("--interval-seconds"@));
            &&& options_of(args.push(None) + more, none) == Err::<Options, ArgumentFault>(
                ArgumentFault::NotUnicode,
            )
            &&& options_of(interval, none) == Err::<Options, ArgumentFault>(
                ArgumentFault::MissingInterval,
            )
            &&& options_of(interval.push(None) + more, none) == Err::<Options, ArgumentFault>(
                ArgumentFault::MissingInterval,
            )
            &&& match parse(word, u64::MAX as nat) {
                Some(n) => n == 0 ==> options_of(interval.push(Some(word)) + more, none) == Err::<
                    Options,
                    ArgumentFault,
                >(ArgumentFault::ZeroInterval),
                None => options_of(interval.push(Some(word)) + more, none) == Err::<
                    Options,
                    ArgumentFault,
                >(ArgumentFault::InvalidInterval(word)),
            }
            &&& word != "--force"@ && word != "--quiet"@ && word != "--interval-seconds"@
                ==> options_of(args.push(Some(word)) + more, none) == Err::<Options, ArgumentFault>(
                ArgumentFault::UnknownOption(word),
            )
        }),
{
    lemma_words_differ();
    let none = Options { interval: None, force: false, quiet: false };
    let interval = Some("--interval-seconds"@);
    let a = seq![None::<Seq<char>>] + more;
    let b = seq![interval];
    let c = seq![interval, None] + more;
    let d = seq![interval, Some(word)] + more;
    let e = seq![Some(word)] + more;
    lemma_options_go_on(args, a, none);
    lemma_options_go_on(args, b, none);
    lemma_options_go_on(args, c, none);
    lemma_options_go_on(args, d, none);
    lemma_options_go_on(args, e, none);
    assert(args + a =~= args.push(None) + more);
    assert(args + b =~= args.push(interval));
    assert(args + c =~= args.push(interval).push(None) + more);
    assert(args + d =~= args.push(interval).push(Some(word)) + more);
    assert(args + e =~= args.push(Some(word)) + more);
}

/// Every command that takes options gets exactly those that were given; stopping,
/// the status and the help take none. Any other name is refused, and so is every
/// command with options that are refused, for the reason that these are. Without a
/// name there is the help.
pub proof fn law_commands_get_their_options(
    name: Option<Seq<char>>,
    rest: Seq<Option<Seq<char>>>,
)
    ensures
        command_of(seq![]) == Ok::<CliCommand, ArgumentFault>(CliCommand::Help),
        ({
            let command = command_of(seq![name] + rest);
            match (name, options_of(rest, Options { interval: None, force: false, quiet: false })) {
                (None, _) => command == Ok::<CliCommand, ArgumentFault>(CliCommand::Help),
                (Some(_), Err(fault)) => command == Err::<CliCommand, ArgumentFault>(fault),
                (Some(name), Ok(options)) => {
                    &&& name == "start"@ ==> command == Ok::<CliCommand, ArgumentFault>(
                        CliCommand::Start(options),
                    )
                    &&& name == "autostart"@ ==> command == Ok::<CliCommand, ArgumentFault>(
                        CliCommand::Autostart(options),
                    )
                    &&& name == "watch"@ ==> command == Ok::<CliCommand, ArgumentFault>(
                        CliCommand::Watch(options),
                    )
                    &&& name == "sync"@ ==> command == Ok::<CliCommand, ArgumentFault>(
                        CliCommand::Sync(options),
                    )
                    &&& name == "stop"@ ==> command == Ok::<CliCommand, ArgumentFault>(
                        CliCommand::Stop,
                    )
                    &&& name == "status"@ ==> command == Ok::<CliCommand, ArgumentFault>(
                        CliCommand::Status,
                    )
                    &&& name == "help"@ || name == "--help"@ || name == "-h"@ ==> command == Ok::<
                        CliCommand,
                        ArgumentFault,
                    >(CliCommand::Help)
                    &&& command is Err ==> command == Err::<CliCommand, ArgumentFault>(
                        ArgumentFault::UnknownCommand(name),
                    )
                    &&& command is Ok ==> name == "start"@ || name == "autostart"@ || name
                        == "watch"@ || name == "sync"@ || name == "stop"@ || name == "status"@
                        || name == "help"@ || name == "--help"@ || name == "-h"@
                },
            }
        }),
{
    lemma_words_differ();
    assert((seq![name] + rest).skip(1) =~= rest);
}

/// Forcing is heard: a sync, a start, an autostart and a watcher whose arguments hold
/// `--force` in the place of an option overwrite tabs that were named by hand, and
/// without it none of them does.
pub proof fn law_force_is_heard(
    before: Seq<Option<Seq<char>>>,
    after: Seq<Option<Seq<char>>>,
    name: Seq<char>,
)
    requires
        options_of(before, Options { interval: None, force: false, quiet: false }) is Ok,
        name == "sync"@ || name == "start"@ || name == "autostart"@ || name == "watch"@,
    ensures
        command_of(seq![Some(name)] + before + seq![Some("--force"@)] + after) matches Ok(command)
            ==> match command {
            CliCommand::Sync(options)
            | CliCommand::Start(options)
            | CliCommand::Autostart(options)
            | CliCommand::Watch(options) => options.force,
            _ => false,
        },
        !before.contains(Some("--force"@)) ==> match command_of(seq![Some(name)] + before) {
            Ok(CliCommand::Sync(options))
            | Ok(CliCommand::Start(options))
            | Ok(CliCommand::Autostart(options))
            | Ok(CliCommand::Watch(options)) => !options.force,
            _ => false,
        },
{
    lemma_words_differ();
    let none = Options { interval: None, force: false, quiet: false };
    let forced = seq![Some("--force"@)] + after;
    lemma_options_go_on(before, forced, none);
    let rest = before + seq![Some("--force"@)] + after;
    assert(before + forced =~= rest);
    assert(forced.skip(1) =~= after);
    let args = seq![Some(name)] + before + seq![Some("--force"@)] + after;
    assert(args =~= seq![Some(name)] + rest);
    law_commands_get_their_options(Some(name), rest);
    law_commands_get_their_options(Some(name), before);
    let options = options_of(before, none)->Ok_0;
    lemma_force_stays(after, Options { force: true, ..options });
    if !before.contains(Some("--force"@)) {
        lemma_nothing_is_forced(before, none);
    }
}

proof fn lemma_force_stays(args: Seq<Option<Seq<char>>>, given: Options)
    requires
        given.force,
    ensures
        options_of(args, given) matches Ok(options) ==> options.force,
    decreases args.len(),
{
    if args.len() > 0 {
        lemma_force_stays(args.skip(1), given);
        lemma_force_stays(args.skip(1), Options { quiet: true, ..given });
        if args.len() > 1 && args[1] is Some {
            if let Some(seconds) = parse(args[1]->0, u64::MAX as nat) {
                lemma_force_stays(
                    args.skip(2),
                    Options { interval: Some(seconds as u64), ..given },
                );
            }
        }
    }
}

proof fn lemma_nothing_is_forced(args: Seq<Option<Seq<char>>>, given: Options)
    requires
        !args.contains(Some("--force"@)),
        !given.force,
    ensures
        options_of(args, given) matches Ok(options) ==> !options.force,
    decreases args.len(),
{
    if args.len() > 0 {
        assert(args.contains(args[0]));
        assert(forall|x: Option<Seq<char>>| #[trigger]
            args.skip(1).contains(x) ==> args.contains(x));
        lemma_nothing_is_forced(args.skip(1), Options { quiet: true, ..given });
        if args.len() > 1 && args[1] is Some {
            assert(forall|x: Option<Seq<char>>| #[trigger]
                args.skip(2).contains(x) ==> args.contains(x));
            if let Some(seconds) = parse(args[1]->0, u64::MAX as nat) {
                lemma_nothing_is_forced(
                    args.skip(2),
                    Options { interval: Some(seconds as u64), ..given },
                );
            }
        }
    }
}

/// The interval of the options counts before that of the settings.
pub proof fn law_given_interval_counts(options: Options, config: Settings, seconds: u64)
    ensures
        interval_of(Options { interval: Some(seconds), ..options }, config) == seconds,
        interval_of(Options { interval: None, ..options }, config) == config.interval_seconds,
{
}

} // verus!
