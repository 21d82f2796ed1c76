use gflags::arg::RawArg;
use gflags::name::Name;
use gflags::parse::ParseError;
use gflags::registry::{Flag, Registry};

// The flag set of a small menu-printing program: a boolean `--big_menu`
// that defaults to true, a string `-l, --language <LANG>` with a
// default list, and a repeatable boolean `-v, --verbose` defaulting to
// false.
struct PrintFlags {
    big_menu: gflags::Flag<bool>,
    language: gflags::Flag<String>,
    verbose: gflags::Flag<bool>,
}

fn print_registry() -> Registry {
    let mut reg = Registry::new();
    reg.register(Flag {
        doc: vec!["Include 'advanced' options in the menu listing.".to_string()],
        short: None,
        name: "big_menu".to_string(),
        placeholder: None,
        is_bool: true,
    });
    reg.register(Flag {
        doc: vec!["Comma-separated list of languages to offer in the 'lang' menu.".to_string()],
        short: Some('l'),
        name: "language".to_string(),
        placeholder: Some("LANG".to_string()),
        is_bool: false,
    });
    reg.register(Flag {
        doc: vec!["Print more chatter.".to_string()],
        short: Some('v'),
        name: "verbose".to_string(),
        placeholder: None,
        is_bool: true,
    });
    reg
}

fn run_print(args: &[&str]) -> Result<(PrintFlags, Vec<String>), ParseError> {
    let reg = print_registry();
    let raw: Vec<RawArg> = args.iter().map(|s| RawArg::Text(s.to_string())).collect();
    let (actions, positionals) = gflags::parse(&reg, raw)?;
    let mut flags = PrintFlags {
        big_menu: gflags::Flag::new(true),
        language: gflags::Flag::new("english,french,german".to_string()),
        verbose: gflags::Flag::new(false),
    };
    for action in &actions {
        let applied = match action.flag {
            0 => flags.big_menu.apply(Name::long("big_menu".to_string()), &action.effect),
            1 => flags.language.apply(Name::long("language".to_string()), &action.effect),
            2 => flags.verbose.apply(Name::long("verbose".to_string()), &action.effect),
            _ => unreachable!(),
        };
        if let Err(e) = applied {
            panic!("{}", e.message());
        }
    }
    Ok((flags, positionals))
}

fn verbose_report(flags: &PrintFlags) -> String {
    format!(
        "verbose = {}\nis verbose? = {}\nverbose count = {}\n",
        flags.verbose.get(),
        flags.verbose.is_present(),
        flags.verbose.repeat_count()
    )
}

fn error_line(args: &[&str]) -> String {
    let e = run_print(args).err().expect("expected a parse error");
    format!("{}\n", e.message())
}

#[test]
fn no_flags() {
    let (flags, args) = run_print(&[]).unwrap();
    assert_eq!(*flags.big_menu.get(), true);
    assert_eq!(flags.language.get().as_str(), "english,french,german");
    assert_eq!(
        verbose_report(&flags),
        "verbose = false\nis verbose? = false\nverbose count = 0\n"
    );
    assert_eq!(args, Vec::<String>::new());
}

#[test]
fn unrecognized_short_flag() {
    assert_eq!(error_line(&["-x"]), "Unrecognized flag: -x\n");
}

#[test]
fn unrecognized_long_flag_no_arg() {
    assert_eq!(error_line(&["--foo"]), "Unrecognized flag: --foo\n");
}

#[test]
fn unrecognized_long_flag_with_arg() {
    assert_eq!(error_line(&["--foo", "bar"]), "Unrecognized flag: --foo\n");
}

#[test]
fn unrecognized_long_flag_equals_with_arg() {
    assert_eq!(error_line(&["--foo=bar"]), "Unrecognized flag: --foo\n");
}

#[test]
fn unrecognized_long_flag_equals() {
    assert_eq!(error_line(&["--foo="]), "Unrecognized flag: --foo\n");
}

#[test]
fn short_language_flag() {
    let (flags, _) = run_print(&["-l", "french"]).unwrap();
    assert_eq!(format!("language = {}\n", flags.language.get()), "language = french\n");
}

#[test]
fn short_language_flag_cuddled() {
    let (flags, _) = run_print(&["-lfrench"]).unwrap();
    assert_eq!(format!("language = {}\n", flags.language.get()), "language = french\n");
}

#[test]
fn short_flag_repeat() {
    let (flags, _) = run_print(&[]).unwrap();
    assert_eq!(
        verbose_report(&flags),
        "verbose = false\nis verbose? = false\nverbose count = 0\n"
    );
    let (flags, _) = run_print(&["-v", "-v"]).unwrap();
    assert_eq!(
        verbose_report(&flags),
        "verbose = true\nis verbose? = true\nverbose count = 2\n"
    );
}

#[test]
fn short_flag_repeat_packed() {
    let (flags, _) = run_print(&["-vv"]).unwrap();
    assert_eq!(
        verbose_report(&flags),
        "verbose = true\nis verbose? = true\nverbose count = 2\n"
    );
}

#[test]
fn long_flag_repeat() {
    let (flags, _) = run_print(&["--verbose", "--verbose"]).unwrap();
    assert_eq!(
        verbose_report(&flags),
        "verbose = true\nis verbose? = true\nverbose count = 2\n"
    );
}

#[test]
fn long_language_flag() {
    let (flags, _) = run_print(&["--language", "french"]).unwrap();
    assert_eq!(format!("language = {}\n", flags.language.get()), "language = french\n");
}

#[test]
fn long_language_flag_equals() {
    let (flags, _) = run_print(&["--language=french"]).unwrap();
    assert_eq!(format!("language = {}\n", flags.language.get()), "language = french\n");
}

#[test]
fn no_prefix_on_long_args() {
    let (flags, _) = run_print(&["--nobig_menu"]).unwrap();
    assert_eq!(format!("big_menu = {}\n", flags.big_menu.get()), "big_menu = false\n");
}

#[test]
fn args_are_passed_through() {
    let (_, args) = run_print(&["foo"]).unwrap();
    assert_eq!(format!("args = {:?}\n", args), "args = [\"foo\"]\n");
}
