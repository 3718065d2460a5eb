use ruversi::bitboard::NONE;
use ruversi::myoption::{Mode, MyOption, Opponent, TrainingMode, Verbose};

/// Reads `args` the way the program does: each argument is checked for an
/// existing path and for reading as an `f32` before the options are parsed.
fn parse(args: &[&str]) -> Result<MyOption, String> {
    let args: Vec<String> = args.iter().map(|s| s.to_string()).collect();
    let found: Vec<bool> = args.iter().map(|a| std::path::Path::new(a).exists()).collect();
    let floats: Vec<bool> = args.iter().map(|a| a.parse::<f32>().is_ok()).collect();
    match MyOption::new(&args, &found, &floats) {
        Some((res, _printed)) => res,
        None => panic!("option reading broke down"),
    }
}

fn parse_ok(args: &[&str]) -> MyOption {
    match parse(args) {
        Ok(o) => o,
        Err(e) => panic!("unexpected error: {}", e),
    }
}

fn parse_err(args: &[&str]) -> String {
    match parse(args) {
        Ok(_) => panic!("expected an error"),
        Err(e) => e,
    }
}

#[test]
fn test_defaults() {
    let opt = parse_ok(&["prog"]);
    assert_eq!(opt.depth, 7);
    assert_eq!(opt.eta, None);
    assert_eq!(opt.duellv, 5);
    assert_eq!(opt.edaxconfig, "");
    assert_eq!(opt.evaltable1, "");
    assert_eq!(opt.evaltable2, "");
    assert_eq!(opt.initpos, "");
    assert_eq!(opt.mode, Mode::Unspecified);
    assert_eq!(opt.n, None);
    assert_eq!(opt.opponent, Opponent::Unspecified);
    assert_eq!(opt.repeat, None);
    assert_eq!(opt.rfen, "");
    assert_eq!(opt.progress, Vec::<u32>::new());
    assert_eq!(opt.think, "");
    assert_eq!(opt.outtrain, "");
    assert_eq!(opt.turn, NONE);
    assert_eq!(opt.trmode, TrainingMode::OneByOne);
    assert_eq!(opt.minibsize, 128);
    assert_eq!(opt.verbose, Verbose::Normal);
    assert_eq!(opt.treedump, None);
}

#[test]
fn test_valid_depth() {
    let opt = parse_ok(&["prog", "--depth", "10"]);
    assert_eq!(opt.depth, 10);
}

#[test]
fn test_invalid_depth() {
    let err = parse_err(&["prog", "--depth", "0"]);
    assert!(err.contains("invalid number"));
}

#[test]
fn test_eta() {
    let opt = parse_ok(&["prog", "--eta", "0.5"]);
    let eta = opt.eta.as_deref().map(|s| s.parse::<f32>().unwrap());
    assert_eq!(eta, Some(0.5));
}

#[test]
fn test_silent_option() {
    let opt = parse_ok(&["prog", "--silent"]);
    assert_eq!(opt.verbose, Verbose::Silent);
    assert!(opt.verbose.is_silent());
}

#[test]
fn test_verbose_option() {
    let opt = parse_ok(&["prog", "--verbose"]);
    assert_eq!(opt.verbose, Verbose::Verbose);
    assert!(opt.verbose.is_verbose());
}

#[test]
fn test_ev1_file_not_exist_should_fail() {
    let err = parse_err(&["prog", "--ev1", "this_file_should_not_exist.ev"]);
    assert!(err.contains("failed find"));
    assert!(err.contains("this_file_should_not_exist.ev"));
}

#[test]
fn test_ev2_file_not_exist_should_fail() {
    let err = parse_err(&["prog", "--ev2", "another_missing_file.ev"]);
    assert!(err.contains("failed find"));
    assert!(err.contains("another_missing_file.ev"));
}

#[test]
fn depth_not_a_number_is_refused() {
    let err = parse_err(&["prog", "--depth", "x"]);
    assert!(err.starts_with("failed read --depth x."));
}

#[test]
fn depth_too_deep_is_refused() {
    let err = parse_err(&["prog", "--depth", "61"]);
    assert!(err.contains("invalid number"));
    assert_eq!(parse_ok(&["prog", "--depth", "60"]).depth, 60);
}

#[test]
fn modes_and_opponents_are_read() {
    let opt = parse_ok(&["prog", "--duel", "--Edax"]);
    assert_eq!(opt.mode, Mode::Duel);
    assert_eq!(opt.opponent, Opponent::Edax);
    let opt = parse_ok(&["prog", "--learn", "--repeat", "3"]);
    assert_eq!(opt.mode, Mode::Learn);
    assert_eq!(opt.repeat, Some(3));
}

#[test]
fn eta_not_a_number_is_refused() {
    let err = parse_err(&["prog", "--eta", "abc"]);
    assert_eq!(err, "invalid option: --eta abc");
}
