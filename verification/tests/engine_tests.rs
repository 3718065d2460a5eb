use ruversi::bitboard::{BitBoard, GOTE, PASS, SENTE};
use ruversi::edaxrunner::{EdaxRunner, RuversiRunner};
use ruversi::kifu::Te;

#[test]
fn edax_output_move_and_score() {
    let txt = " # | depth|score|\n---+------+\n  1|   20@98%  +04  0:00.012  1234  102833  D3 c3\n";
    let r = EdaxRunner::read_output(txt).unwrap();
    assert_eq!(r, Ok(("d3".to_string(), "+04".to_string())));
}

#[test]
fn edax_output_without_score() {
    let txt = "head\nsep\n  1|  20  0:00  F5 d6\n";
    let r = EdaxRunner::read_output(txt).unwrap();
    assert_eq!(r, Err("invalid input from edax. \"  1|  20  0:00  F5 d6\" posf5".to_string()));
}

#[test]
fn edax_output_without_move() {
    let txt = "head\nsep\n 12345 +01\n";
    let r = EdaxRunner::read_output(txt).unwrap();
    assert_eq!(r, Err(format!("EDAX:\"{txt}\"")));
}

#[test]
fn edax_output_unreadable() {
    assert!(EdaxRunner::read_output("only\ntwo").is_none());
    assert!(EdaxRunner::read_output("a\nb\n 123 x").is_none());
}

fn ruversi_text(line12: &str) -> String {
    let mut t = String::new();
    for i in 0..12 {
        t.push_str(&format!("line{i}\n"));
    }
    t.push_str(line12);
    t.push('\n');
    t
}

#[test]
fn ruversi_output_move_and_value() {
    let txt = ruversi_text("val:-1.5 123 nodes. D3c4 5msec");
    let (res, r) = RuversiRunner::read_output(&txt).unwrap();
    assert_eq!(res, "val:-1.5 123 nodes. d3c4 5msec");
    assert_eq!(r, Ok(("d3".to_string(), "-1.5".to_string())));
}

#[test]
fn ruversi_output_errors() {
    let txt = ruversi_text("val:-1.5 123 nodes. 5msec");
    let (_, r) = RuversiRunner::read_output(&txt).unwrap();
    assert_eq!(r, Err("invalid input from ruversi. \"val:-1.5 123 nodes. 5msec\"".to_string()));
    let txt = ruversi_text("val:None 123 nodes. E6");
    let (_, r) = RuversiRunner::read_output(&txt).unwrap();
    assert_eq!(r, Err("invalid input from ruversi. \"line2\" pose6".to_string()));
    assert!(RuversiRunner::read_output("short\n").is_none());
}

#[test]
fn rfen_round_trip_examples() {
    for rfen in [
        "8/8/8/3Aa3/3aA3/8/8/8 b",
        "dD/AdC/BcC/BaAbAa/Af1/AaAaA1a1/BcC/G1 b",
        "H/G1/F2/E3/D4/C5/B6/A7 w",
        "h/h/h/h/h/h/h/h w",
    ] {
        let b = BitBoard::from(rfen).unwrap();
        let back = BitBoard::from(&b.to_str()).unwrap();
        assert_eq!((back.black, back.white, back.teban, back.pass), (b.black, b.white, b.teban, 0));
        assert_eq!(b.to_str(), rfen);
    }
    let mut b = BitBoard::new();
    b.pass();
    let back = BitBoard::from(&b.to_str()).unwrap();
    assert_eq!((back.black, back.white, back.teban, back.pass), (b.black, b.white, b.teban, 0));
}

#[test]
fn te_round_trip_examples() {
    for (xy, teban) in [(0u8, SENTE), (63, GOTE), (PASS, SENTE), (26, GOTE)] {
        let te = Te::new(xy, teban, "8/8/8/3Aa3/3aA3/8/8/8 b".to_string());
        let line = te.to_str(12);
        let back = Te::from(line.trim_end()).unwrap();
        assert_eq!((back.xy, back.teban, back.rfen), (xy, teban, te.rfen.clone()));
    }
}

#[test]
fn move_keeps_board_consistent() {
    let b = BitBoard::new();
    let moves = b.genmove().unwrap();
    for (x, y) in moves {
        let a = b.make_move(x, y).unwrap();
        assert_eq!(a.black & a.white, 0);
        assert_eq!((a.black | a.white).count_ones(), (b.black | b.white).count_ones() + 1);
        assert_eq!(a.teban, GOTE);
    }
    let r = b.rotate180().rotate180();
    assert_eq!((r.black, r.white), (b.black, b.white));
}
