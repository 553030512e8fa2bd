use rust_v7_lib::{is_valid_optstring, Arg, GetOpt, GetOptErr};

/// A yielded item, written out for comparison.
#[derive(Debug, PartialEq)]
enum Item {
    Opt(char),
    OptWithArg(char, String),
    Positional(String),
    MissingArg(char),
    MissingOpt,
    UnknownOpt(char),
}

fn run(optstring: &str, args: &[&str]) -> Vec<Item> {
    assert!(is_valid_optstring(optstring));
    let args: Vec<String> = args.iter().map(|s| s.to_string()).collect();
    let mut getopt = GetOpt::new(optstring, args);
    getopt
        .collect_all()
        .into_iter()
        .map(|r| match r {
            Ok(Arg::Opt(c)) => Item::Opt(c),
            Ok(Arg::OptWithArg(c, v)) => Item::OptWithArg(c, v),
            Ok(Arg::Arg(v)) => Item::Positional(v),
            Err(GetOptErr::MissingArg(c)) => Item::MissingArg(c),
            Err(GetOptErr::MissingOpt) => Item::MissingOpt,
            Err(GetOptErr::UnknownOpt(c)) => Item::UnknownOpt(c),
        })
        .collect()
}

fn pos(s: &str) -> Item {
    Item::Positional(s.to_string())
}

#[test]
fn scenario_single_flag() {
    assert_eq!(run("ab:", &["-a"]), vec![Item::Opt('a')]);
}

#[test]
fn scenario_flag_then_flag_with_value() {
    assert_eq!(
        run("ab:", &["-ab", "val"]),
        vec![Item::Opt('a'), Item::OptWithArg('b', "val".to_string())]
    );
}

#[test]
fn scenario_double_dash_then_hyphen_token() {
    assert_eq!(run("a", &["--", "-a"]), vec![pos("-a")]);
}

#[test]
fn scenario_bare_token_ends_scanning() {
    assert_eq!(run("a", &["x", "-a"]), vec![pos("x"), pos("-a")]);
}

#[test]
fn scenario_missing_value() {
    assert_eq!(run("a:", &["-a"]), vec![Item::MissingArg('a')]);
}

#[test]
fn scenario_dangling_hyphen() {
    assert_eq!(run("a", &["-"]), vec![Item::MissingOpt]);
}

#[test]
fn scenario_unknown_option() {
    assert_eq!(run("a", &["-z"]), vec![Item::UnknownOpt('z')]);
}

#[test]
fn no_colon_gives_only_plain_options() {
    assert_eq!(
        run("abc", &["-abz", "-c", "-a"]),
        vec![
            Item::Opt('a'),
            Item::Opt('b'),
            Item::UnknownOpt('z'),
            Item::Opt('c'),
            Item::Opt('a')
        ]
    );
}

#[test]
fn one_item_per_option_character() {
    // Five option characters before the first plain argument, five items.
    let items = run("ab:c", &["-ac", "-xb", "v", "-c", "file", "-a"]);
    assert_eq!(
        items,
        vec![
            Item::Opt('a'),
            Item::Opt('c'),
            Item::UnknownOpt('x'),
            Item::OptWithArg('b', "v".to_string()),
            Item::Opt('c'),
            pos("file"),
            pos("-a")
        ]
    );
}

#[test]
fn everything_after_positional_is_positional() {
    assert_eq!(
        run("ab", &["-a", "x", "-b", "--", "-", "-ab"]),
        vec![Item::Opt('a'), pos("x"), pos("-b"), pos("--"), pos("-"), pos("-ab")]
    );
}

#[test]
fn double_dash_is_never_an_item() {
    assert_eq!(run("a", &["-a", "--"]), vec![Item::Opt('a')]);
    assert_eq!(run("a", &["--", "--", "x"]), vec![pos("--"), pos("x")]);
}

#[test]
fn rerun_gives_same_items() {
    let args = ["-ab", "-", "-q", "v", "w", "-a"];
    assert_eq!(run("a:b", &args), run("a:b", &args));
}

#[test]
fn value_takes_whole_next_token_and_ends_cluster() {
    assert_eq!(
        run("a:b", &["-ab", "-b", "-b"]),
        vec![Item::OptWithArg('a', "-b".to_string()), Item::Opt('b')]
    );
}

#[test]
fn missing_value_ends_cluster() {
    assert_eq!(run("a:b", &["-ba"]), vec![Item::Opt('b'), Item::MissingArg('a')]);
    assert_eq!(run("a:b", &["-ab"]), vec![Item::MissingArg('a')]);
    assert_eq!(run("a:bc", &["-bacb"]), vec![Item::Opt('b'), Item::MissingArg('a')]);
}

#[test]
fn unknown_option_keeps_cluster() {
    assert_eq!(run("a", &["-za"]), vec![Item::UnknownOpt('z'), Item::Opt('a')]);
}

#[test]
fn empty_arguments_give_nothing() {
    assert_eq!(run("a", &[]), vec![]);
    assert_eq!(run("", &["-a"]), vec![Item::UnknownOpt('a')]);
}

#[test]
fn repeated_colon_is_accepted() {
    assert!(is_valid_optstring("a::b"));
    assert!(is_valid_optstring(""));
    assert!(is_valid_optstring("aZ9:"));
    assert!(!is_valid_optstring("a-b"));
    assert_eq!(run("a::b", &["-a", "v"]), vec![Item::OptWithArg('a', "v".to_string())]);
}

#[test]
fn triple_dash_is_options() {
    assert_eq!(run("a", &["---"]), vec![Item::UnknownOpt('-'), Item::UnknownOpt('-')]);
}

#[test]
fn lone_hyphen_and_missing_value_each_give_one_item() {
    // "-", then "-xab" with b taking a value and no token left: the lone
    // hyphen and the three decoded letters give four items.
    assert_eq!(
        run("ab:", &["-", "-xabz"]),
        vec![
            Item::MissingOpt,
            Item::UnknownOpt('x'),
            Item::Opt('a'),
            Item::MissingArg('b')
        ]
    );
}
