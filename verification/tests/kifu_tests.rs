use ruversi::bitboard;
use ruversi::kifu::{Kifu, Te, SENTEWIN};

#[test]
fn testte() {
    let te = Te::new(bitboard::PASS, bitboard::SENTE, "abcdefgh".to_string());
    assert_eq!(255, te.xy);
    assert_eq!(bitboard::SENTE, te.teban);
    assert_eq!("abcdefgh", te.rfen);
    assert_eq!("PS", te.pos());
    assert_eq!("99 @@ PS abcdefgh\n", te.to_str(99));

    let te = Te::new(2 + 8 * 3, bitboard::GOTE, "ABCDEFGH".to_string());
    assert_eq!(26, te.xy);
    assert_eq!(bitboard::GOTE, te.teban);
    assert_eq!("ABCDEFGH", te.rfen);
    assert_eq!("c4", te.pos());
    assert_eq!("23 [] c4 ABCDEFGH\n", te.to_str(23));

    let te = Te::from("");
    assert!(te.is_none());

    let te = Te::from("1 @@ a1 rfenb");
    assert!(te.is_none());

    let te = Te::from("1  @@ a1 rfenb");
    assert!(te.is_none());

    let te = Te::from("1 @@ a1 rfen b");
    assert!(te.is_some());
    let te = te.unwrap();
    assert_eq!(0, te.xy);
    assert_eq!(bitboard::SENTE, te.teban);
    assert_eq!("rfen b", te.rfen);
    assert_eq!("a1", te.pos());
    assert_eq!("1 @@ a1 rfen b\n", te.to_str(1));

    let te = Te::from("2 [] h8 rfen w");
    assert!(te.is_some());
    let te = te.unwrap();
    assert_eq!(63, te.xy);
    assert_eq!(bitboard::GOTE, te.teban);
    assert_eq!("rfen w", te.rfen);
    assert_eq!("h8", te.pos());
    assert_eq!("2 [] h8 rfen w\n", te.to_str(2));
}

#[test]
fn testkifu() {
    // new, from, append, to_str, winneris, winner
    let kifu = Kifu::new();
    assert_eq!(0, kifu.list.len());
    assert_eq!(None, kifu.score);
    assert_eq!("on going...", kifu.to_str());

    let lines = "55 @@ h5 dD/AdC/BcC/BaAbAa/Af1/AaAaA1a1/BcC/G1 b\n\
    56 [] f6 dD/AdC/BcC/BaAbB/H/AaAaA1A1/BcC/G1 w\n\
    57 @@ PS dD/AdC/BcC/BdB/DbB/AaAcA1/BcC/G1 b\n\
    58 [] h6 dD/AdC/BcC/BdB/DbB/AaAcA1/BcC/G1 w\n\
    59 @@ PS dD/AdC/BcC/BdB/DcA/AaAe/BcC/G1 b\n\
    60 [] h8 dD/AdC/BcC/BdB/DcA/AaAe/BcC/G1 w\n\
    SENTE won. 4";
    let kifu = Kifu::from(&lines.split("\n").collect::<Vec<&str>>());
    let te = kifu.nth(0);
    assert_eq!(te.pos(), "h5");
    assert_eq!(te.xy, 39);
    assert_eq!(te.teban, bitboard::SENTE);
    assert_eq!(te.rfen, "dD/AdC/BcC/BaAbAa/Af1/AaAaA1a1/BcC/G1 b");
    let te = kifu.nth(1);
    assert_eq!(te.pos(), "f6");
    assert_eq!(te.xy, 45);
    assert_eq!(te.teban, bitboard::GOTE);
    assert_eq!(te.rfen, "dD/AdC/BcC/BaAbB/H/AaAaA1A1/BcC/G1 w");
    let te = kifu.nth(2);
    assert_eq!(te.pos(), "PS");
    assert_eq!(te.xy, bitboard::PASS);
    assert_eq!(te.teban, bitboard::SENTE);
    assert_eq!(te.rfen, "dD/AdC/BcC/BdB/DbB/AaAcA1/BcC/G1 b");
    assert_eq!(kifu.score, Some(4));
    assert_eq!(kifu.winner(), Some(SENTEWIN));
    assert_eq!(kifu.score2str(), "SENTE won. 4");
    let kifu2 = kifu.copy();
    assert_eq!(kifu.score, kifu2.score);
    for ((i, a), b) in kifu.list.iter().enumerate().zip(kifu2.list.iter()) {
        assert_eq!(a.to_str(i), b.to_str(i));
    }
}

#[test]
fn kifu_written_then_read() {
    for score in [Some(4i8), Some(-12), Some(0), None] {
        let mut k = Kifu::new();
        k.append(19, bitboard::SENTE, "8/8/8/3Aa3/3aA3/8/8/8 b".to_string());
        k.append(18, bitboard::GOTE, "8/8/3A4/3B3/3aA3/8/8/8 w".to_string());
        k.append(bitboard::PASS, bitboard::SENTE, "8/8/2aA4/3B3/3aA3/8/8/8 b".to_string());
        if let Some(s) = score {
            k.winneris(s);
        }
        let text = k.to_str();
        let lines: Vec<&str> = text.split('\n').collect();
        let back = Kifu::from(&lines);
        assert_eq!(back.list.len(), 3);
        for i in 0..3 {
            assert_eq!(back.list[i].xy, k.list[i].xy);
            assert_eq!(back.list[i].teban, k.list[i].teban);
            assert_eq!(back.list[i].rfen, k.list[i].rfen);
        }
        assert_eq!(back.score, Some(score.unwrap_or(0)));
    }
}
