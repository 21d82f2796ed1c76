use gflags::arg::{Arg, RawArg};
use gflags::custom::Value;
use gflags::name::Name;
use gflags::parse::ParseError;
use gflags::registry::{Flag, Registry};

fn text(s: &str) -> RawArg {
    RawArg::Text(s.to_string())
}

fn args(items: &[&str]) -> Vec<RawArg> {
    items.iter().map(|s| text(s)).collect()
}

fn flag(short: Option<char>, name: &str, is_bool: bool) -> Flag {
    Flag {
        doc: Vec::new(),
        short,
        name: name.to_string(),
        placeholder: None,
        is_bool,
    }
}

/// Scenario: `--big-menu` (bool, default true) and `-l/--language`
/// (string, default "english,french,german"); `--language=german`
/// publishes only the language.
#[test]
fn language_scenario() {
    let mut reg = Registry::new();
    reg.register(flag(None, "big-menu", true));
    reg.register(flag(Some('l'), "language", false));
    let (actions, positionals) = gflags::parse(&reg, args(&["--language=german"])).unwrap();
    let mut big_menu: gflags::Flag<bool> = gflags::Flag::new(true);
    let mut language: gflags::Flag<String> =
        gflags::Flag::new("english,french,german".to_string());
    for action in &actions {
        let applied = match action.flag {
            0 => big_menu.apply(Name::long("big-menu".to_string()), &action.effect),
            1 => language.apply(Name::long("language".to_string()), &action.effect),
            _ => unreachable!(),
        };
        applied.unwrap();
    }
    assert_eq!(language.get().as_str(), "german");
    assert_eq!(*big_menu.get(), true);
    assert!(!big_menu.is_present());
    assert_eq!(positionals, Vec::<String>::new());
}

/// Scenario: `-v/--verbose` (bool, no default); `-vv` gives a repeat
/// count of two and presence.
#[test]
fn verbose_no_default_scenario() {
    let mut reg = Registry::new();
    reg.register(flag(Some('v'), "verbose", true));
    let (actions, _) = gflags::parse(&reg, args(&["-vv"])).unwrap();
    let mut verbose: gflags::Flag<bool> = gflags::Flag::null();
    assert!(!verbose.is_present());
    for action in &actions {
        verbose.apply(Name::long("verbose".to_string()), &action.effect).unwrap();
    }
    assert_eq!(verbose.repeat_count(), 2);
    assert!(verbose.is_present());
    assert_eq!(*verbose.get(), true);
}

/// Scenario: an unknown long flag is rejected and the diagnostic holds
/// its exact spelling.
#[test]
fn unknown_flag_scenario() {
    let mut reg = Registry::new();
    reg.register(flag(Some('v'), "verbose", true));
    let e = gflags::parse(&reg, args(&["--unknown"])).err().unwrap();
    assert_eq!(e, ParseError::UnrecognizedLong("unknown".to_string()));
    assert!(e.message().contains("--unknown"));
    assert_eq!(e.message().as_str(), "Unrecognized flag: --unknown");
}

/// Everything after a literal `--` is positional, even flag-like text.
#[test]
fn double_dash_keeps_flag_like_args() {
    let mut reg = Registry::new();
    reg.register(flag(Some('b'), "bool", true));
    let (actions, positionals) = gflags::parse(&reg, args(&["--", "--foo", "-b"])).unwrap();
    assert_eq!(actions.len(), 0);
    assert_eq!(positionals, vec!["--foo".to_string(), "-b".to_string()]);
}

/// `--noname` on a non-boolean flag is rejected as unrecognized.
#[test]
fn negation_of_non_bool_rejected() {
    let mut reg = Registry::new();
    reg.register(flag(Some('l'), "language", false));
    let e = gflags::parse(&reg, args(&["--nolanguage"])).err().unwrap();
    assert_eq!(e, ParseError::UnrecognizedLong("nolanguage".to_string()));
}

/// A boolean flag given an inline value is rejected.
#[test]
fn bool_flag_with_value_rejected() {
    let mut reg = Registry::new();
    reg.register(flag(Some('v'), "verbose", true));
    let e = gflags::parse(&reg, args(&["--verbose=1"])).err().unwrap();
    assert_eq!(
        e,
        ParseError::UnexpectedValue("verbose".to_string(), "1".to_string())
    );
    assert_eq!(e.message().as_str(), "Unexpected argument for flag: --verbose=1");
}

/// A flag that needs a value and stands last is rejected.
#[test]
fn missing_value_rejected() {
    let mut reg = Registry::new();
    reg.register(flag(Some('l'), "language", false));
    let e = gflags::parse(&reg, args(&["-l"])).err().unwrap();
    assert_eq!(e.message().as_str(), "Missing value for `-l`");
    let e = gflags::parse(&reg, args(&["--language"])).err().unwrap();
    assert_eq!(e.message().as_str(), "Missing value for `--language`");
}

/// Two flags with the same long name are a configuration error.
#[test]
fn duplicate_long_name_rejected() {
    let mut reg = Registry::new();
    reg.register(flag(Some('a'), "alpha", true));
    reg.register(flag(Some('b'), "alpha", true));
    let e = gflags::parse(&reg, args(&[])).err().unwrap();
    assert_eq!(e, ParseError::DuplicateLong("alpha".to_string()));
    assert_eq!(e.message().as_str(), "Duplicate flag name: --alpha");
}

/// Two flags with the same short character are a configuration error.
#[test]
fn duplicate_short_char_rejected() {
    let mut reg = Registry::new();
    reg.register(flag(Some('a'), "alpha", true));
    reg.register(flag(Some('a'), "beta", true));
    let e = gflags::parse(&reg, args(&[])).err().unwrap();
    assert_eq!(e, ParseError::DuplicateShort('a'));
    assert_eq!(e.message().as_str(), "Duplicate short flag: -a");
}

/// A positional argument that is not valid text fails `parse` but
/// passes through `parse_os`.
#[test]
fn non_unicode_positional() {
    let reg = Registry::new();
    let raw = vec![RawArg::Bytes(vec![0xff, 0xfe])];
    let e = gflags::parse(&reg, raw).err().unwrap();
    assert_eq!(e, ParseError::NonUnicodeArg);
    assert_eq!(e.message().as_str(), "Unsupported non-UTF8 command line argument");

    let raw = vec![RawArg::Bytes(vec![0xff, 0xfe])];
    let out = gflags::parse_os(&reg, raw).unwrap();
    assert_eq!(out.args, vec![RawArg::Bytes(vec![0xff, 0xfe])]);
    assert_eq!(out.actions.len(), 0);
}

/// A flag of type `RawArg` takes a value that is not valid text.
#[test]
fn raw_flag_value() {
    let mut reg = Registry::new();
    reg.register(flag(Some('f'), "file", false));
    let raw = vec![text("-f"), RawArg::Bytes(vec![0x80, 0x81])];
    let out = gflags::parse_os(&reg, raw).unwrap();
    let mut file: gflags::Flag<RawArg> = gflags::Flag::null();
    for action in &out.actions {
        file.apply(Name::long("file".to_string()), &action.effect).unwrap();
    }
    assert!(file.is_present());
    assert_eq!(*file.get(), RawArg::Bytes(vec![0x80, 0x81]));
}

/// An empty inline value publishes the empty string.
#[test]
fn empty_inline_value() {
    let mut reg = Registry::new();
    reg.register(flag(Some('l'), "language", false));
    let (actions, _) = gflags::parse(&reg, args(&["--language="])).unwrap();
    let mut language: gflags::Flag<String> = gflags::Flag::null();
    for action in &actions {
        language.apply(Name::long("language".to_string()), &action.effect).unwrap();
    }
    assert_eq!(language.get().as_str(), "");
}

/// Repeating a boolean flag publishes once per occurrence.
#[test]
fn repeat_counts_every_occurrence() {
    let mut reg = Registry::new();
    reg.register(flag(Some('v'), "verbose", true));
    let (actions, _) =
        gflags::parse(&reg, args(&["--verbose", "--verbose", "--verbose"])).unwrap();
    let mut verbose: gflags::Flag<bool> = gflags::Flag::null();
    for action in &actions {
        verbose.apply(Name::long("verbose".to_string()), &action.effect).unwrap();
    }
    assert_eq!(verbose.repeat_count(), 3);
    assert!(verbose.is_present());
}

/// `-ab` decides exactly what `-a -b` decides when both are boolean.
#[test]
fn cuddled_bools_equal_separate() {
    let mut reg = Registry::new();
    reg.register(flag(Some('a'), "alpha", true));
    reg.register(flag(Some('b'), "beta", true));
    let cuddled = gflags::parse_os(&reg, args(&["-ab", "tail"])).unwrap();
    let separate = gflags::parse_os(&reg, args(&["-a", "-b", "tail"])).unwrap();
    assert_eq!(cuddled, separate);
}

/// `-cVALUE` decides exactly what `-c VALUE` decides for a value flag.
#[test]
fn cuddled_value_equals_separate() {
    let mut reg = Registry::new();
    reg.register(flag(Some('l'), "language", false));
    let cuddled = gflags::parse_os(&reg, args(&["-lfrench", "tail"])).unwrap();
    let separate = gflags::parse_os(&reg, args(&["-l", "french", "tail"])).unwrap();
    assert_eq!(cuddled, separate);
}

/// `--name=VALUE` decides exactly what `--name VALUE` decides for a
/// value flag.
#[test]
fn inline_value_equals_separate() {
    let mut reg = Registry::new();
    reg.register(flag(Some('l'), "language", false));
    let inline = gflags::parse_os(&reg, args(&["--language=french", "tail"])).unwrap();
    let separate = gflags::parse_os(&reg, args(&["--language", "french", "tail"])).unwrap();
    assert_eq!(inline, separate);
}

/// `--noname` on a boolean flag publishes `false` and counts as an
/// occurrence.
#[test]
fn negation_publishes_false() {
    let mut reg = Registry::new();
    reg.register(flag(Some('v'), "verbose", true));
    let (actions, _) = gflags::parse(&reg, args(&["--noverbose"])).unwrap();
    let mut verbose: gflags::Flag<bool> = gflags::Flag::null();
    for action in &actions {
        verbose.apply(Name::long("verbose".to_string()), &action.effect).unwrap();
    }
    assert_eq!(*verbose.get(), false);
    assert!(verbose.is_present());
    assert_eq!(verbose.repeat_count(), 1);
}

/// Decimal values parse exactly, with a `+` sign accepted, and each
/// failure names its cause.
#[test]
fn u64_values() {
    let parse_num = |s: &str| -> Result<u64, String> {
        match u64::parse(Arg::new(Name::short('n'), text(s))) {
            Ok(v) => Ok(v),
            Err(e) => Err(e.message().to_string()),
        }
    };
    assert_eq!(parse_num("0").unwrap(), 0);
    assert_eq!(parse_num("123").unwrap(), 123);
    assert_eq!(parse_num("+5").unwrap(), 5);
    assert_eq!(parse_num("18446744073709551615").unwrap(), u64::MAX);
    assert_eq!(
        parse_num("18446744073709551616").err().unwrap(),
        "number too large to fit in target type"
    );
    assert_eq!(parse_num("12x").err().unwrap(), "invalid digit found in string");
    assert_eq!(parse_num("").err().unwrap(), "cannot parse integer from empty string");
    assert_eq!(parse_num("+").err().unwrap(), "cannot parse integer from empty string");
}

/// A non-text value handed to a flag that needs text names the flag.
#[test]
fn non_text_value_names_flag() {
    let arg = Arg::new(Name::short('l'), RawArg::Bytes(vec![0xff]));
    let e = arg.get_str().err().unwrap();
    assert_eq!(e.message(), "Non-unicode arg for -l");
}

/// Names render with their dashes.
#[test]
fn name_rendering() {
    assert_eq!(Name::short('c').to_text().as_str(), "-c");
    assert_eq!(Name::long("big-menu".to_string()).to_text().as_str(), "--big-menu");
}

/// Errors carry their message unchanged.
#[test]
fn error_message_round_trip() {
    let e = gflags::error::Error::new("boom");
    assert_eq!(e.message(), "boom");
    let e = gflags::error::Error("bang");
    assert_eq!(e.message(), "bang");
}
