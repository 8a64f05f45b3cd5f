use herdr_tab_title::cli::{
    effective_interval, parse_args, parse_options, watch_args, ArgumentError, CliCommand, Options,
};
use herdr_tab_title::config::PluginConfig;

fn args(words: &[&str]) -> Vec<Option<String>> {
    words.iter().map(|w| Some(w.to_string())).collect()
}

fn options(interval: Option<u64>, force: bool, quiet: bool) -> Options {
    Options {
        interval,
        force,
        quiet,
    }
}

#[test]
fn commands_are_told_by_their_names() {
    let none = options(None, false, false);
    assert_eq!(parse_args(&args(&["start"])), Ok(CliCommand::Start(none)));
    assert_eq!(parse_args(&args(&["autostart"])), Ok(CliCommand::Autostart(none)));
    assert_eq!(parse_args(&args(&["watch"])), Ok(CliCommand::Watch(none)));
    assert_eq!(parse_args(&args(&["stop"])), Ok(CliCommand::Stop));
    assert_eq!(parse_args(&args(&["status"])), Ok(CliCommand::Status));
    assert_eq!(parse_args(&args(&["sync"])), Ok(CliCommand::Sync(none)));
    for word in ["help", "--help", "-h"] {
        assert_eq!(parse_args(&args(&[word])), Ok(CliCommand::Help));
    }
    assert_eq!(parse_args(&[]), Ok(CliCommand::Help));
    assert_eq!(parse_args(&[None, Some("--x".into())]), Ok(CliCommand::Help));
    assert_eq!(
        parse_args(&args(&["restart"])),
        Err(ArgumentError::UnknownCommand("restart".into()))
    );
}

#[test]
fn options_follow_the_command() {
    assert_eq!(
        parse_args(&args(&["start", "--force", "--interval-seconds", "30", "--quiet"])),
        Ok(CliCommand::Start(options(Some(30), true, true)))
    );
    assert_eq!(
        parse_options(&args(&["--interval-seconds", "1", "--interval-seconds", "+2"])),
        Ok(options(Some(2), false, false))
    );
    assert_eq!(
        parse_args(&args(&["unknown", "--bad"])),
        Err(ArgumentError::UnknownOption("--bad".into()))
    );
}

#[test]
fn options_are_refused_for_a_reason() {
    assert_eq!(parse_options(&[None]), Err(ArgumentError::NotUnicode));
    assert_eq!(
        parse_options(&args(&["--interval-seconds"])),
        Err(ArgumentError::MissingInterval)
    );
    assert_eq!(
        parse_options(&[Some("--interval-seconds".into()), None]),
        Err(ArgumentError::MissingInterval)
    );
    assert_eq!(
        parse_options(&args(&["--interval-seconds", "0"])),
        Err(ArgumentError::ZeroInterval)
    );
    for value in ["", "-1", "x", "18446744073709551616", " 1"] {
        assert_eq!(
            parse_options(&args(&["--interval-seconds", value])),
            Err(ArgumentError::InvalidInterval(value.into()))
        );
    }
    assert_eq!(
        parse_options(&args(&["--interval-seconds", "18446744073709551615"])),
        Ok(options(Some(u64::MAX), false, false))
    );
}

#[test]
fn interval_of_the_options_comes_first() {
    let config = PluginConfig::default();
    assert_eq!(effective_interval(&options(Some(3), false, false), &config), 3);
    assert_eq!(effective_interval(&options(None, false, false), &config), 10);
}

#[test]
fn watcher_understands_its_arguments() {
    let given = options(Some(7), true, true);
    let words = watch_args(&given);
    assert_eq!(words, vec!["watch", "--interval-seconds", "7", "--force"]);
    let read: Vec<Option<String>> = words.into_iter().map(Some).collect();
    assert_eq!(
        parse_args(&read),
        Ok(CliCommand::Watch(options(Some(7), true, false)))
    );
    assert_eq!(watch_args(&options(None, false, false)), vec!["watch"]);
}
