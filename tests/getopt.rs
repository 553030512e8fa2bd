use rust_v7_lib::{is_valid_optstring, Arg, GetOpt, GetOptErr};

fn strings(v: &[&str]) -> Vec<String> {
    v.iter().map(|s| s.to_string()).collect()
}

fn parser(optstring: &str, args: &[&str]) -> GetOpt {
    assert!(is_valid_optstring(optstring));
    GetOpt::new(optstring, strings(args))
}

fn assert_arg(r: Option<Result<Arg, GetOptErr>>, val: &str) {
    match r {
        Some(Ok(Arg::Arg(v))) => assert_eq!(v, val),
        _ => panic!("Expected argument"),
    }
}

fn assert_opt(r: Option<Result<Arg, GetOptErr>>, opt: char) {
    match r {
        Some(Ok(Arg::Opt(o))) => assert_eq!(o, opt),
        _ => panic!("Expected option"),
    }
}

fn assert_opt_with_arg(r: Option<Result<Arg, GetOptErr>>, opt: char, val: &str) {
    match r {
        Some(Ok(Arg::OptWithArg(o, v))) => {
            assert_eq!(o, opt);
            assert_eq!(v, val);
        }
        _ => panic!("Expected option"),
    }
}

fn assert_no_more_args(r: Option<Result<Arg, GetOptErr>>) {
    match r {
        Some(a) => panic!("Did not expect argument ({:?})", a),
        None => (),
    }
}

#[test]
fn test_getopt_arg_only() {
    let mut getopt = parser("a", &["ant"]);
    assert_arg(getopt.next(), "ant");
    assert_no_more_args(getopt.next());
}

#[test]
fn test_getopt_opt_only() {
    let mut getopt = parser("a", &["-a"]);
    assert_opt(getopt.next(), 'a');
    assert_no_more_args(getopt.next());
}

#[test]
fn test_getopt_opt_with_arg() {
    let mut getopt = parser("a:", &["-a", "ant"]);
    assert_opt_with_arg(getopt.next(), 'a', "ant");
    assert_no_more_args(getopt.next());
}

#[test]
fn test_getopt_opt_and_arg() {
    let mut getopt = parser("a", &["-a", "ant"]);
    assert_opt(getopt.next(), 'a');
    assert_arg(getopt.next(), "ant");
    assert_no_more_args(getopt.next());
}

#[test]
fn test_getopt_missing_arg() {
    let mut getopt = parser("a:", &["-a"]);
    match getopt.next() {
        Some(arg) => match arg {
            Err(GetOptErr::MissingArg(opt)) => assert_eq!('a', opt),
            Err(_) => panic!("Expected MissingArg error"),
            Ok(_) => panic!("Expected MissingArg error"),
        },
        None => panic!(),
    };
    assert_no_more_args(getopt.next());
}

#[test]
fn test_getopt_unknown_opt() {
    let mut getopt = parser("a:", &["-b"]);
    match getopt.next() {
        Some(arg) => match arg {
            Err(GetOptErr::UnknownOpt(opt)) => assert_eq!('b', opt),
            Err(_) => panic!("Expected UnknownOpt error"),
            Ok(_) => panic!("Expected UnknownOpt error"),
        },
        None => panic!(),
    };
    assert_no_more_args(getopt.next());
}

#[test]
fn test_getopt_missing_opt() {
    let mut getopt = parser("a:", &["-"]);
    match getopt.next() {
        Some(arg) => match arg {
            Err(GetOptErr::MissingOpt) => (),
            Err(_) => panic!("Expected UnknownOpt error"),
            Ok(_) => panic!("Expected UnknownOpt error"),
        },
        None => panic!(),
    };
    assert_no_more_args(getopt.next());
}

#[test]
fn test_getopt_invalid_optspec1() {
    assert!(!is_valid_optstring("!"));
}

#[test]
fn test_getopt_invalid_optspec2() {
    assert!(!is_valid_optstring(":"));
}

#[test]
fn test_getopt_end_of_opts() {
    let mut getopt = parser("a", &["--", "ant"]);
    assert_arg(getopt.next(), "ant");
    assert_no_more_args(getopt.next());
}

#[test]
fn test_getopt_grouped_opts() {
    let mut getopt = parser("abcd", &["-ab", "-cd"]);
    assert_opt(getopt.next(), 'a');
    assert_opt(getopt.next(), 'b');
    assert_opt(getopt.next(), 'c');
    assert_opt(getopt.next(), 'd');
    assert_no_more_args(getopt.next());
}

#[test]
fn test_getopt_grouped_opts_with_args() {
    let mut getopt = parser("a:b:", &["-ab", "ant", "bat"]);
    assert_opt_with_arg(getopt.next(), 'a', "ant");
    assert_arg(getopt.next(), "bat");
    assert_no_more_args(getopt.next());
}

#[test]
fn test_getopt_grouped_opts_missing_arg() {
    let mut getopt = parser("a:b", &["-ab"]);
    match getopt.next() {
        Some(arg) => match arg {
            Err(GetOptErr::MissingArg(opt)) => assert_eq!('a', opt),
            Err(_) => panic!("Expected MissingArg error"),
            Ok(_) => panic!("Expected MissingArg error"),
        },
        None => panic!(),
    };
    assert_no_more_args(getopt.next());
}

#[test]
fn test_getopt_grouped_opts_with_arg_and_arg() {
    let mut getopt = parser("a:b", &["-ab", "ant", "bat"]);
    assert_opt_with_arg(getopt.next(), 'a', "ant");
    assert_arg(getopt.next(), "bat");
    assert_no_more_args(getopt.next());
}
