use ruversi::bitboard::{BitBoard, GOTE, SENTE};
use ruversi::duelresult::DuelResult;
use ruversi::gtprotocol::{GtpAction, Status, GTP};
use ruversi::kifu::{DRAW, GOTEWIN, SENTEWIN};
use ruversi::myoption::Verbose;
use ruversi::weight::EvalFile;

#[test]
fn test_duel_result() {
    let dr = DuelResult::new();
    assert_eq!(dr.win, [0; 2]);
    assert_eq!(dr.lose, [0; 2]);
    assert_eq!(dr.draw, [0; 2]);
    assert_eq!(dr.total, 0);

    let mut dr = DuelResult::new();
    dr.sresult(SENTEWIN);
    assert_eq!((dr.win, dr.draw, dr.lose, dr.total), ([1, 0], [0, 0], [0, 0], 1));
    let mut dr = DuelResult::new();
    dr.sresult(GOTEWIN);
    assert_eq!((dr.win, dr.draw, dr.lose, dr.total), ([0, 0], [0, 0], [1, 0], 1));
    let mut dr = DuelResult::new();
    dr.sresult(DRAW);
    assert_eq!((dr.win, dr.draw, dr.lose, dr.total), ([0, 0], [1, 0], [0, 0], 1));
    let mut dr = DuelResult::new();
    dr.gresult(SENTEWIN);
    assert_eq!((dr.win, dr.draw, dr.lose, dr.total), ([0, 0], [0, 0], [0, 1], 1));
    let mut dr = DuelResult::new();
    dr.gresult(GOTEWIN);
    assert_eq!((dr.win, dr.draw, dr.lose, dr.total), ([0, 1], [0, 0], [0, 0], 1));
    let mut dr = DuelResult::new();
    dr.gresult(DRAW);
    assert_eq!((dr.win, dr.draw, dr.lose, dr.total), ([0, 0], [0, 1], [0, 0], 1));
    let mut dr = DuelResult::new();
    dr.gresult(5);
    assert_eq!((dr.win, dr.draw, dr.lose, dr.total), ([0, 0], [0, 0], [0, 0], 1));

    // The integer columns of the summary: total, win, draw, lose, balance-s,
    // balance-g (the win rate and rating are floating point and printed by
    // the program).
    let mut dr = DuelResult::new();
    dr.win[0] = 2;
    dr.lose[0] = 3;
    dr.draw[0] = 4;
    dr.win[1] = 3;
    dr.lose[1] = 7;
    dr.draw[1] = 16;
    dr.total = 35;
    assert_eq!(dr.total, 35);
    assert_eq!(dr.totals(), Some((5, 20, 10, 29, 26)));
}

#[test]
fn duel_result_exchanged() {
    let mut dr = DuelResult::new();
    dr.win = [2, 3];
    dr.lose = [3, 7];
    dr.draw = [4, 16];
    dr.total = 35;
    let ex = dr.exchanged();
    assert_eq!(ex.win, [3, 2]);
    assert_eq!(ex.lose, [7, 3]);
    assert_eq!(ex.draw, [16, 4]);
    assert_eq!(ex.total, 35);
    let back = ex.exchanged();
    assert_eq!((back.win, back.draw, back.lose), (dr.win, dr.draw, dr.lose));
}

#[test]
fn verbose_levels() {
    assert!(Verbose::Silent.is_silent());
    assert!(!Verbose::Silent.is_normal());
    assert!(Verbose::Normal.is_normal());
    assert!(Verbose::Verbose.is_verbose());
    assert!(!Verbose::Normal.is_verbose());
}

#[test]
fn eval_file_headers() {
    assert!(EvalFile::from("# 65-4-1") == Some(EvalFile::V1));
    assert!(EvalFile::from("# 6x 128-128-16-1") == Some(EvalFile::V12));
    assert!(EvalFile::from("# 6x 128-128-16-1 ") == None);
    assert!(EvalFile::from("") == None);
    for e in [EvalFile::V1, EvalFile::V5, EvalFile::V8, EvalFile::V9, EvalFile::V12] {
        assert!(EvalFile::from(&e.to_str()) == Some(e));
    }
    assert_eq!(EvalFile::Unknown.to_str(), "unknown eval file format.");
}

#[test]
fn gtp_basic_commands() {
    let mut g = GTP::new();
    assert!(!g.is_quit() && !g.is_error());
    let (a, id) = g.read("1 name");
    assert!(a == GtpAction::Reply);
    assert_eq!(id, "1");
    assert_eq!(g.resp, "= 1 ruversi");
    let (a, _) = g.read("protocol_version");
    assert!(a == GtpAction::Reply);
    assert_eq!(g.resp, "=  2");
    let (a, _) = g.read("2 boardsize 8");
    assert!(a == GtpAction::Reply);
    assert_eq!(g.resp, "= 2 ");
    let (a, _) = g.read("list_games");
    assert!(a == GtpAction::Reply);
    assert_eq!(g.resp, "=  Othello");
    let (a, _) = g.read("3 version");
    assert!(a == GtpAction::Version);
    let (a, _) = g.read("");
    assert!(a == GtpAction::Nothing);
    let (a, _) = g.read("4 quit");
    assert!(a == GtpAction::Reply);
    assert!(g.is_quit());
    assert_eq!(g.cmd, "4 quit");
}

#[test]
fn gtp_bad_boardsize_quits() {
    let mut g = GTP::new();
    let (a, _) = g.read("boardsize 19");
    assert!(a == GtpAction::Reply);
    assert!(g.status == Status::Quit);
    assert_eq!(g.resp, "?  ");
    assert_eq!(g.emsg, "error: unknown command [boardsize 19].");
}

#[test]
fn gtp_unknown_command() {
    let mut g = GTP::new();
    let (a, _) = g.read("7 showboard");
    assert!(a == GtpAction::Nothing);
    assert!(g.is_error());
    assert_eq!(g.emsg, "error: unknown command [7 showboard].");
}

#[test]
fn gtp_clear_board_and_play() {
    let mut g = GTP::new();
    let (a, _) = g.read("1 clear_board");
    assert!(a == GtpAction::Reply);
    let expected = BitBoard::from("8/8/8/3aA3/3Aa3/8/8/8 b").unwrap();
    assert_eq!((g.ban.black, g.ban.white, g.ban.teban, g.ban.pass),
               (expected.black, expected.white, expected.teban, expected.pass));
    let (a, _) = g.read("2 play black E3");
    assert!(a == GtpAction::Reply);
    assert_eq!(g.resp, "= 2 ");
    assert!(!g.is_error());
    assert_eq!(g.ban.teban, GOTE);
    let after = expected.make_move(5, 3).unwrap();
    assert_eq!((g.ban.black, g.ban.white), (after.black, after.white));
    // the same cell again
    let (a, _) = g.read("3 play white E3");
    assert!(a == GtpAction::Reply);
    assert!(g.is_error());
    assert!(g.emsg.starts_with("stone exists."));
}

#[test]
fn gtp_play_out_of_turn() {
    let mut g = GTP::new();
    let (a, _) = g.read("play white D3");
    assert!(a == GtpAction::Nothing);
    assert!(g.is_error());
    assert_eq!(g.emsg, "error: turn mismatch.");
}

#[test]
fn gtp_genmove_and_best() {
    let mut g = GTP::new();
    let (a, id) = g.read("5 genmove black");
    assert!(a == GtpAction::Think);
    assert_eq!(id, "5");
    assert_eq!(g.ban.teban, SENTE);
    g.play_best("5", 4, 3);
    assert_eq!(g.resp, "= 5 D3");
    assert_eq!(g.ban.teban, GOTE);
    let (a, _) = g.read("6 genmove white");
    assert!(a == GtpAction::Think);
    g.play_best("6", 0, 0);
    assert_eq!(g.resp, "= 6 pass");
    assert_eq!(g.ban.pass, 1);
    let (a, _) = g.read("genmove red");
    assert!(a == GtpAction::Nothing);
    assert!(g.is_error());
}

#[test]
fn gtp_set_game_and_weights() {
    let mut g = GTP::new();
    g.ev = "data/none.txt".to_string();
    let (a, _) = g.read("9 set_game Othello");
    assert!(a == GtpAction::LoadWeights);
    assert_eq!(g.resp, "= 9 ");
    g.weights_failed("9", "no such file");
    assert!(g.is_error());
    assert_eq!(g.emsg, "no such file data/none.txt");
    assert_eq!(g.resp, "? 9 ");
    let mut g = GTP::new();
    let (a, _) = g.read("set_game Go");
    assert!(a == GtpAction::Reply);
    assert_eq!(g.resp, "?  ");
}

#[test]
fn gtp_readpos() {
    assert_eq!(GTP::readpos("D5"), Some((4, 5)));
    assert_eq!(GTP::readpos("A1"), Some((1, 1)));
    assert_eq!(GTP::readpos("H8"), Some((8, 8)));
}

#[test]
fn duel_result_totals() {
    let mut dr = DuelResult::new();
    dr.win = [2, 3];
    dr.lose = [3, 7];
    dr.draw = [4, 16];
    dr.total = 35;
    assert_eq!(dr.totals(), Some((5, 20, 10, 29, 26)));
    dr.win = [u32::MAX, 1];
    assert_eq!(dr.totals(), None);
}
