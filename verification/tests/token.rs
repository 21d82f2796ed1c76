use gflags::arg::RawArg;
use gflags::token::{Token, Tokenizer};

fn text(s: &str) -> RawArg {
    RawArg::Text(s.to_string())
}

fn args(items: &[&str]) -> Vec<RawArg> {
    items.iter().map(|s| text(s)).collect()
}

/// `-a` should work.
#[test]
fn one_short_flag_no_arg() {
    let mut tokenizer = Tokenizer::iterate(args(&["-a"]));
    assert_eq!(tokenizer.next().unwrap(), Token::Short('a'));
}

/// `-a -b` should work.
#[test]
fn two_short_flags_no_args() {
    let mut tokenizer = Tokenizer::iterate(args(&["-a", "-b"]));
    assert_eq!(tokenizer.next().unwrap(), Token::Short('a'));
    assert_eq!(tokenizer.next().unwrap(), Token::Short('b'));
}

/// `-ab` when `-a` takes no args should be treated as `-a -b`.
#[test]
fn two_short_flags_no_args_cuddled() {
    let mut tokenizer = Tokenizer::iterate(args(&["-ab"]));
    assert_eq!(tokenizer.next().unwrap(), Token::Short('a'));
    assert_eq!(tokenizer.next().unwrap(), Token::Short('b'));
}

/// `-a b` should treat `b` as an arg for `-a`.
#[test]
fn one_short_flag_one_arg() {
    let mut tokenizer = Tokenizer::iterate(args(&["-a", "b"]));
    assert_eq!(tokenizer.next().unwrap(), Token::Short('a'));
    assert_eq!(tokenizer.next_arg().unwrap(), text("b"));
}

/// `-ab` when `-a` takes an arg should be treated as `-a b`
#[test]
fn one_short_flag_one_arg_cuddled() {
    let mut tokenizer = Tokenizer::iterate(args(&["-ab"]));
    assert_eq!(tokenizer.next().unwrap(), Token::Short('a'));
    assert_eq!(tokenizer.next_arg().unwrap(), text("b"));
}

/// `-a` when `-a` expects an arg should fail
#[test]
fn one_short_flag_missing_arg() {
    let mut tokenizer = Tokenizer::iterate(args(&["-a"]));
    assert_eq!(tokenizer.next().unwrap(), Token::Short('a'));
    assert!(tokenizer.next_arg().is_none());
}

/// Long flag
#[test]
fn one_long_flag_no_args() {
    let mut tokenizer = Tokenizer::iterate(args(&["--foo"]));
    assert_eq!(tokenizer.next().unwrap(), Token::Long("foo".to_string()));
}

/// `--foo bar` should work
#[test]
fn one_long_flag_one_arg_space() {
    let mut tokenizer = Tokenizer::iterate(args(&["--foo", "bar"]));
    assert_eq!(tokenizer.next().unwrap(), Token::Long("foo".to_string()));
    assert_eq!(tokenizer.next_arg().unwrap(), text("bar"));
}

/// `--foo=bar` should work
#[test]
fn one_long_flag_one_arg_equals() {
    let mut tokenizer = Tokenizer::iterate(args(&["--foo=bar"]));
    assert_eq!(
        tokenizer.next().unwrap(),
        Token::LongEq("foo".to_string(), "bar".to_string())
    );
}

/// `foo= bar` should return an empty arg for `--foo` and treat `--bar` as
/// a second arg.
#[test]
fn one_long_flag_missing_arg_equals() {
    let mut tokenizer = Tokenizer::iterate(args(&["--foo=", "bar"]));
    assert_eq!(
        tokenizer.next().unwrap(),
        Token::LongEq("foo".to_string(), "".to_string())
    );
    assert_eq!(tokenizer.next().unwrap(), Token::Arg(text("bar")));
}

/// "--" should cause everything afterwards to be treated as an argument
#[test]
fn double_dash_stops_flag_parsing() {
    let mut tokenizer = Tokenizer::iterate(args(&["-a", "--foo", "bar", "--", "--baz", "-b", "hello"]));
    assert_eq!(tokenizer.next().unwrap(), Token::Short('a'));
    assert_eq!(tokenizer.next().unwrap(), Token::Long("foo".to_string()));
    assert_eq!(tokenizer.next_arg().unwrap(), text("bar"));
    // After the '--' everything should be interpreted literally
    assert_eq!(tokenizer.next().unwrap(), Token::Arg(text("--baz")));
    assert_eq!(tokenizer.next().unwrap(), Token::Arg(text("-b")));
    assert_eq!(tokenizer.next().unwrap(), Token::Arg(text("hello")));
}

/// An argument that is not valid text is never split into flags.
#[test]
fn non_text_arg_is_positional() {
    let raw = RawArg::Bytes(vec![0x2d, 0x61, 0xff]);
    let mut tokenizer = Tokenizer::iterate(vec![raw.dup()]);
    assert_eq!(tokenizer.next().unwrap(), Token::Arg(raw));
    assert!(tokenizer.next().is_none());
}

/// A bare `-` is a positional argument, not a flag.
#[test]
fn bare_dash_is_positional() {
    let mut tokenizer = Tokenizer::iterate(args(&["-"]));
    assert_eq!(tokenizer.next().unwrap(), Token::Arg(text("-")));
}
