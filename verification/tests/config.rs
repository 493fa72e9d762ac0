use alfs::config::{parse_args, ArgError, Config, Flag};
use alfs::number::NumberFault;

fn parse(args: &[&str]) -> Result<Config, ArgError> {
    let args: Vec<String> = args.iter().map(|a| a.to_string()).collect();
    parse_args(&args)
}

fn refusal(args: &[&str]) -> String {
    parse(args).unwrap_err().message()
}

#[test]
fn a_command_line_gives_a_config() {
    let c = parse(&["--cpus", "4", "--quanta", "10"]).unwrap();
    assert_eq!(c.cpus, 4);
    assert_eq!(c.quanta, 10);
    assert_eq!(c.socket_path, "socket.event");
    assert!(!c.use_stdin);
}

#[test]
fn every_argument_is_read() {
    let c = parse(&["--stdin", "--socket", "/run/x", "--quanta", "-5", "--cpus", "+2"]).unwrap();
    assert_eq!((c.cpus, c.quanta), (2, -5));
    assert_eq!(c.socket_path, "/run/x");
    assert!(c.use_stdin);
}

#[test]
fn the_last_of_two_arguments_counts() {
    let c = parse(&["--cpus", "1", "--quanta", "1", "--cpus", "9", "--socket", "a", "--socket", "b"])
        .unwrap();
    assert_eq!((c.cpus, c.quanta), (9, 1));
    assert_eq!(c.socket_path, "b");
}

#[test]
fn a_value_may_look_like_an_argument() {
    let c = parse(&["--socket", "--stdin", "--cpus", "1", "--quanta", "1"]).unwrap();
    assert_eq!(c.socket_path, "--stdin");
    assert!(!c.use_stdin);
}

#[test]
fn numbers_keep_to_their_range() {
    let max = usize::MAX.to_string();
    assert_eq!(parse(&["--cpus", &max, "--quanta", "0"]).unwrap().cpus, usize::MAX);
    let c = parse(&["--cpus", "0", "--quanta", "-9223372036854775808"]).unwrap();
    assert_eq!((c.cpus, c.quanta), (0, i64::MIN));
    for bad in ["", "+", "-", "-1", "1 ", " 1", "1_0", "0x10", "1.0", "x", "++1"] {
        assert!(matches!(parse(&["--cpus", bad, "--quanta", "1"]), Err(ArgError::Number { .. })));
    }
    for bad in ["", "+", "-", "--1", "9223372036854775808", "-9223372036854775809", "1e3"] {
        assert!(matches!(parse(&["--cpus", "1", "--quanta", bad]), Err(ArgError::Number { .. })));
    }
}

fn fault(args: &[&str]) -> (Flag, String, NumberFault) {
    match parse(args) {
        Err(ArgError::Number { flag, value, fault }) => (flag, value, fault),
        other => panic!("{:?}", other),
    }
}

#[test]
fn refused_numbers_say_what_is_wrong() {
    let huge = "99999999999999999999999";
    for (value, expected) in [
        ("", NumberFault::Empty),
        ("x", NumberFault::InvalidDigit),
        ("+", NumberFault::InvalidDigit),
        ("-1", NumberFault::InvalidDigit),
        ("12x", NumberFault::InvalidDigit),
        ("\u{663}", NumberFault::InvalidDigit),
        (huge, NumberFault::TooLarge),
    ] {
        assert_eq!(fault(&["--cpus", value]), (Flag::Cpus, value.to_string(), expected));
        let said = value.parse::<usize>().unwrap_err().to_string();
        assert_eq!(refusal(&["--cpus", value]), said);
    }
    let low = format!("-{}", huge);
    for (value, expected) in [
        ("", NumberFault::Empty),
        ("-", NumberFault::InvalidDigit),
        ("1 ", NumberFault::InvalidDigit),
        ("9223372036854775807x", NumberFault::InvalidDigit),
        ("-9223372036854775808x", NumberFault::InvalidDigit),
        ("9223372036854775808", NumberFault::TooLarge),
        ("-9223372036854775809", NumberFault::TooSmall),
        (low.as_str(), NumberFault::TooSmall),
    ] {
        assert_eq!(fault(&["--quanta", value]), (Flag::Quanta, value.to_string(), expected));
        let said = value.parse::<i64>().unwrap_err().to_string();
        assert_eq!(refusal(&["--quanta", value]), said);
    }
    // where digits are out of range before something else follows, the number parser decides
    let both = format!("{}x", huge);
    let said = both.parse::<usize>().unwrap_err().to_string();
    assert_eq!(refusal(&["--cpus", &both]), said);
}

#[test]
fn refused_command_lines_say_why() {
    assert_eq!(refusal(&["--cpus"]), "--cpus needs value");
    assert_eq!(refusal(&["--cpus", "1", "--quanta"]), "--quanta needs value");
    assert_eq!(refusal(&["--socket"]), "--socket needs value");
    assert_eq!(refusal(&["--cpu", "1"]), "unknown arg: --cpu");
    assert_eq!(refusal(&[]), "missing --cpus");
    assert_eq!(refusal(&["--quanta", "1"]), "missing --cpus");
    assert_eq!(refusal(&["--cpus", "1"]), "missing --quanta");
}

#[test]
fn the_first_fault_counts() {
    assert!(matches!(parse(&["--bad", "--cpus", "x"]), Err(ArgError::Unknown(_))));
    assert!(matches!(parse(&["--cpus", "x", "--bad"]), Err(ArgError::Number { .. })));
    assert!(matches!(parse(&["--quanta"]), Err(ArgError::NeedsValue(Flag::Quanta))));
}
