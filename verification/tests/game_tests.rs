use ruversi::bitboard::{BitBoard, GOTE, PASS, SENTE};
use ruversi::cassio::{OthelloEngineProtocol, SearchKind};
use ruversi::extractrfen::{countmoves, extract};
use ruversi::game::{code_to_xy, xy_to_code, GameBB};
use ruversi::kifu::{postxt, Kifu, SENTEWIN};
use ruversi::myoption::Verbose;
use ruversi::shnode::move_priority2;

#[test]
fn gamebb_settings() {
    let mut g = GameBB::new();
    assert_eq!(g.cachesize, 100);
    assert!(!g.is_verbose());
    assert!(g.not_silent());
    g.set_cachesize(5000);
    assert_eq!(g.cachesize, 5000);
    g.set_verbose(&Verbose::Silent);
    assert!(!g.not_silent());
    g.set_verbose(&Verbose::Verbose);
    assert!(g.is_verbose());
    let g = GameBB::from("8/8/8/3Aa3/3aA3/8/8/8 w");
    assert_eq!(g.ban.teban, GOTE);
    assert!(g.kifu.list.is_empty());
}

#[test]
fn gamebb_steps_record_moves() {
    let mut g = GameBB::new();
    let start = g.ban.to_str();
    // e3 for black: x = 5, y = 3, code (y - 1) * 8 + (x - 1)
    let finished = g.step(2 * 8 + 4);
    assert!(!finished);
    assert_eq!(g.ban.teban, GOTE);
    assert_eq!(g.kifu.list.len(), 1);
    assert_eq!(g.kifu.list[0].xy, 20);
    assert_eq!(g.kifu.list[0].teban, SENTE);
    assert_eq!(g.kifu.list[0].rfen, start);
    assert_eq!(g.kifu.list[0].pos(), "e3");
    assert_eq!(g.ban.count(), 3);
    let finished = g.step(PASS);
    assert!(!finished);
    let finished = g.step(PASS);
    assert!(finished);
    assert_eq!(g.kifu.list.len(), 3);
    g.finish();
    assert_eq!(g.kifu.score, Some(g.ban.count()));
}

#[test]
fn gamebb_full_board_ends() {
    // one empty cell left at the bottom right, black to move and able to fill it
    let mut g = GameBB::from("H/H/H/H/H/H/H/G1 b");
    g.ban.white = 1u64 << 62;
    g.ban.black &= !(1u64 << 62);
    assert_eq!(g.ban.at(7, 7), 0);
    let finished = g.step(63);
    assert!(finished);
    assert_eq!(g.kifu.list.len(), 2);
    assert_eq!(g.kifu.list[1].xy, PASS);
    g.finish();
    let k: &Kifu = &g.kifu;
    assert_eq!(k.winner(), Some(SENTEWIN));
}

#[test]
fn gamebb_user_move() {
    let movable = vec![(4u8, 3u8), (3, 4)];
    assert_eq!(GameBB::read_user_move("d3", &movable), Some((4, 3)));
    assert_eq!(GameBB::read_user_move("c4\n", &movable), Some((3, 4)));
    assert_eq!(GameBB::read_user_move("e6", &movable), None);
    assert_eq!(GameBB::read_user_move("z3", &movable), None);
    assert_eq!(GameBB::read_user_move("dx", &movable), None);
    assert_eq!(GameBB::read_user_move("d9", &movable), None);
}

#[test]
fn oep_commands() {
    let mut oep = OthelloEngineProtocol::new();
    let r = oep.processcmd("", false, "1.0");
    assert_eq!(r.print, ["ready."]);
    let r = oep.processcmd("", true, "1.0");
    assert_eq!(r.print, ["ok."]);
    let r = oep.processcmd("HELLO", false, "1.0");
    assert!(r.print.is_empty());
    assert_eq!(r.log, ["unknown header:HELLO"]);
    let r = oep.processcmd("ENGINE-PROTOCOL init", false, "1.0");
    assert_eq!(r.print, ["ready."]);
    assert_eq!(r.log, ["init"]);
    assert_eq!(oep.cmd, "ENGINE-PROTOCOL init");
    let r = oep.processcmd("ENGINE-PROTOCOL get-version", false, "1.0");
    assert_eq!(r.print, ["version: ruversi 1.0", "ready."]);
    let r = oep.processcmd("ENGINE-PROTOCOL midgame-search xxx 0 1 5 100", false, "1.0");
    assert!(r.search == SearchKind::Midgame);
    assert_eq!(r.body, "midgame-search xxx 0 1 5 100");
    let r = oep.processcmd("ENGINE-PROTOCOL endgame-search xxx 0 1 100", true, "1.0");
    assert!(r.search == SearchKind::NoSearch);
    assert_eq!(r.log, ["Error: already thinking... {cmd}"]);
    let r = oep.processcmd("ENGINE-PROTOCOL get-search-infos", true, "1.0");
    assert_eq!(r.print, ["ok."]);
    let r = oep.processcmd("ENGINE-PROTOCOL bogus", false, "1.0");
    assert_eq!(r.log, ["unknown:ENGINE-PROTOCOL bogus"]);
    assert!(!r.quit);
    let r = oep.processcmd("ENGINE-PROTOCOL quit", false, "1.0");
    assert!(r.quit);
}

#[test]
fn count_moves_of_rfen() {
    assert_eq!(countmoves("8/8/8/3Aa3/3aA3/8/8/8 b"), 0);
    assert_eq!(countmoves("8/8/8/3Aa3/2C3/8/8/8 w"), 1);
    assert_eq!(countmoves("H/H/H/H/H/H/H/H b"), 60);
    assert_eq!(countmoves("dD/AdC/BcC/BaAbAa/Af1/AaAaA1a1/BcC/G1 b"), 56);
}

#[test]
fn move_priorities() {
    assert_eq!(move_priority2(&(0, 0, 0, 0)), 0);
    assert_eq!(move_priority2(&(1, 1, 2, 1)), 3);
    assert_eq!(move_priority2(&(4, 4, 8, 8)), 50);
    assert_eq!(move_priority2(&(3, 3, 2, 2)), 53);
}

#[test]
fn pos_text() {
    assert_eq!(postxt(1, 1), "a1");
    assert_eq!(postxt(8, 3), "h3");
    assert_eq!(postxt(0, 0), "PASS");
    assert_eq!(postxt(9, 1), "PASS");
    let _ = BitBoard::new();
}

#[test]
fn board_lines_of_the_start() {
    let ban = BitBoard::new();
    let empty = "|__|__|__|__|__|__|__|__|";
    assert_eq!(
        ban.put_lines(),
        vec![
            empty,
            empty,
            empty,
            "|__|__|__|@@|[]|__|__|__|",
            "|__|__|__|[]|@@|__|__|__|",
            empty,
            empty,
            empty,
            "@@'s turn.",
        ]
    );
    let mut ban = ban;
    ban.flipturn();
    assert_eq!(ban.put_lines()[8], "[]'s turn.");
    ban.teban = 0;
    assert_eq!(ban.put_lines()[8], "finished.");
}

#[test]
fn cell_codes_and_moves() {
    assert_eq!(xy_to_code(0, 0), PASS);
    assert_eq!(code_to_xy(PASS), (0, 0));
    assert_eq!(xy_to_code(1, 1), 0);
    assert_eq!(xy_to_code(8, 8), 63);
    assert_eq!(xy_to_code(4, 3), 19);
    assert_eq!(code_to_xy(19), (4, 3));
    for x in 1..=8u8 {
        for y in 1..=8u8 {
            assert_eq!(code_to_xy(xy_to_code(x, y)), (x, y));
        }
    }
}

#[test]
fn extract_names_the_third_position() {
    let mut k = Kifu::new();
    k.append(19, SENTE, "8/8/8/3Aa3/3aA3/8/8/8 b".to_string());
    k.append(18, GOTE, "8/8/3A4/3B3/3aA3/8/8/8 w".to_string());
    k.append(17, SENTE, "8/8/2aA4/3B3/3aA3/8/8/8 b".to_string());
    k.winneris(4);
    let text = k.to_str();
    let lines: Vec<&str> = text.split('\n').collect();
    let (back, line) = extract(&lines).unwrap();
    assert_eq!(back.list.len(), 3);
    assert_eq!(line, "\"8/8/2aA4/3B3/3aA3/8/8/8 b\", // d3 c3 2");

    let short: Vec<&str> = lines[1..].to_vec();
    assert!(extract(&short).is_none());
    assert!(extract(&vec!["1 @@ a0 8/8/8/8/8/8/8/8 b"]).is_none());
    assert!(extract(&Vec::new()).is_none());
}
