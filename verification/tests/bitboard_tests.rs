use ruversi::bitboard::{BitBoard, GOTE, LSB_CELL, NUMCELL, SENTE};
use ruversi::notation::{count_emptycells, count_stones};

#[test]
fn testbitbrd() {
    let b = BitBoard::new();
    assert_eq!(b.teban, SENTE);
    assert_eq!(b.pass, 0);
    assert_eq!(b.black, 0x0000001008000000);
    assert_eq!(b.white, 0x0000000810000000);
    assert_eq!(b.fixedstones(), (0, 0));
    assert_eq!(b.count(), 0);
    assert_eq!(b.to_str(), "8/8/8/3Aa3/3aA3/8/8/8 b");
    assert_eq!(b.to_obf(),
        "---------------------------XO------OX--------------------------- X");
    let mv = b.genmove();
    assert_eq!(mv, Some(vec![(5, 3), (6, 4), (3, 5), (4, 6)]));
    let b = BitBoard::from("H/H/H/H/H/H/H/H b").unwrap();
    assert_eq!(b.teban, SENTE);
    assert_eq!(b.pass, 0);
    assert_eq!(b.black, 0xffffffffffffffff);
    assert_eq!(b.white, 0);
    assert_eq!(b.fixedstones(), (64, 0));
    assert_eq!(b.count(), 64);
    assert_eq!(b.to_obf(),
        "XXXXXXXXXXXXXXXXXXXXXXXXXXXXXXXXXXXXXXXXXXXXXXXXXXXXXXXXXXXXXXXX X");
    assert!(b.genmove().is_none());
    let mut b = BitBoard::from("h/h/h/h/h/h/h/h w").unwrap();
    assert_eq!(b.teban, GOTE);
    assert_eq!(b.pass, 0);
    assert_eq!(b.black, 0);
    assert_eq!(b.white, 0xffffffffffffffff);
    assert_eq!(b.to_obf(),
        "OOOOOOOOOOOOOOOOOOOOOOOOOOOOOOOOOOOOOOOOOOOOOOOOOOOOOOOOOOOOOOOO O");
    assert!(b.genmove().is_none());
    b.pass();
    assert_eq!(b.teban, SENTE);
    assert_eq!(b.pass, 1);
    assert!(!b.is_passpass());
    assert!(b.is_full());
    assert_eq!(b.to_obf(),
        "OOOOOOOOOOOOOOOOOOOOOOOOOOOOOOOOOOOOOOOOOOOOOOOOOOOOOOOOOOOOOOOO X");
    assert!(b.genmove().is_none());
    b.pass();
    assert_eq!(b.teban, GOTE);
    assert_eq!(b.pass, 2);
    assert!(b.is_passpass());
    assert!(b.is_full());
    assert_eq!(b.fixedstones(), (0, 64));
    assert_eq!(b.count(), -64);
    assert_eq!(b.to_obf(),
        "OOOOOOOOOOOOOOOOOOOOOOOOOOOOOOOOOOOOOOOOOOOOOOOOOOOOOOOOOOOOOOOO O");
    let b = BitBoard::from("1Fa/Bf/AaAe/AbAd/AcAc/AdAb/AeAa/h w").unwrap();
    // b.put();
    assert_eq!(b.black, 0x004121110905037E);
    assert_eq!(b.white, 0xffbedeeef6fafc80);
    assert!(b.checkreverse(0, 0));
    assert_eq!(b.fixedstones(), (0, 15));
    assert_eq!(b.count(),
      6 + 2 + 2 + 2 + 2 + 2 + 2 -
      (1 + 6 + 1 + 5 + 2 + 4 + 3 + 3 + 4 + 2 + 5 + 1 + 8));
    assert_eq!(b.to_obf(),
      "-XXXXXXOXXOOOOOOXOXOOOOOXOOXOOOOXOOOXOOOXOOOOXOOXOOOOOXOOOOOOOOO O");
    let b = b.make_move(1, 1);
    assert!(b.is_ok());
    let b = b.unwrap();
    assert_eq!(b.black, 0x0);
    assert_eq!(b.white, 0xffffffffffffffff);
    assert_eq!(b.to_str(), "h/h/h/h/h/h/h/h b");
    let b = BitBoard::from("1Fa/Bf/AaAe/AbAd/AcAc/AdAb/AeAa/h w").unwrap();
    // b.put();
    let b = b.rotate180();
    assert_eq!(b.black, (0x004121110905037E as u64).reverse_bits());
    assert_eq!(b.white, (0xffbedeeef6fafc80 as u64).reverse_bits());
    // b.put();
    assert_eq!(b.fixedstones(), (0, 15));
    let b = b.make_move(8, 8);
    assert!(b.is_ok());
    let b = b.unwrap();
    assert_eq!(b.to_str(), "h/h/h/h/h/h/h/h b");
    assert_eq!(b.fixedstones(), (0, 64));
    assert_eq!(b.count(), -64);
    let b = BitBoard::from("Af1/Fb/EaAa/DaBa/CaCa/BaDa/AaEa/H b").unwrap();
    assert_eq!(b.black, 0x80FCFAF6EEDEBEFF);
    assert_eq!(b.white, 0x7E03050911214100);
    assert!(b.checkreverse(7, 0));
    assert_eq!(b.fixedstones(), (15, 0));
    assert_eq!(b.count(),
      -(6 + 2 + 2 + 2 + 2 + 2 + 2) +
      (1 + 6 + 1 + 5 + 2 + 4 + 3 + 3 + 4 + 2 + 5 + 1 + 8));
    assert_eq!(b.to_obf(),
      "XOOOOOO-XXXXXXOOXXXXXOXOXXXXOXXOXXXOXXXOXXOXXXXOXOXXXXXOXXXXXXXX X");
    let b = b.make_move(8, 1);
    assert!(b.is_ok());
    let b = b.unwrap();
    assert_eq!(b.black, 0xffffffffffffffff);
    assert_eq!(b.white, 0x0);
    assert_eq!(b.to_str(), "H/H/H/H/H/H/H/H w");
    let b = BitBoard::from("Af1/Fb/EaAa/DaBa/CaCa/BaDa/AaEa/H b").unwrap();
    let b = b.rotate180();
    // b.put();
    assert_eq!(b.black, (0x80FCFAF6EEDEBEFF as u64).reverse_bits());
    assert_eq!(b.white, (0x7E03050911214100 as u64).reverse_bits());
    assert!(b.checkreverse(0, 7));
    assert_eq!(b.fixedstones(), (15, 0));
    assert_eq!(b.count(),
      -(6 + 2 + 2 + 2 + 2 + 2 + 2) +
      (1 + 6 + 1 + 5 + 2 + 4 + 3 + 3 + 4 + 2 + 5 + 1 + 8));
    assert_eq!(b.to_obf(),
      "XXXXXXXXOXXXXXOXOXXXXOXXOXXXOXXXOXXOXXXXOXOXXXXXOOXXXXXX-OOOOOOX X");
    let b = b.make_move(1, 8);
    assert!(b.is_ok());
    let b = b.unwrap();
    assert_eq!(b.black, 0xffffffffffffffff);
    assert_eq!(b.white, 0x0);
    assert_eq!(b.to_str(), "H/H/H/H/H/H/H/H w");
    let b = BitBoard::from("H/G1/F2/E3/D4/C5/B6/A7 w").unwrap();
    assert_eq!(b.to_obf(),
        "XXXXXXXXXXXXXXX-XXXXXX--XXXXX---XXXX----XXX-----XX------X------- O");
    assert_eq!(b.fixedstones(), (36, 0));
    let b = b.rotate180();
    assert_eq!(b.fixedstones(), (36, 0));
    let b = BitBoard::from("h/1g/2f/3e/4d/5c/6b/7a w").unwrap();
    assert_eq!(b.to_obf(),
        "OOOOOOOO-OOOOOOO--OOOOOO---OOOOO----OOOO-----OOO------OO-------O O");
    assert_eq!(b.fixedstones(), (0, 36));
    let b = b.rotate180();
    assert_eq!(b.fixedstones(), (0, 36));
    let b = BitBoard::from("H/8/8/8/8/8/8/8 b").unwrap();
    assert_eq!(b.to_obf(),
        "XXXXXXXX-------------------------------------------------------- X");
    assert_eq!(b.fixedstones(), (8, 0));
    let b = b.rotate180();
    assert_eq!(b.to_obf(),
        "--------------------------------------------------------XXXXXXXX X");
    assert_eq!(b.fixedstones(), (8, 0));
    let b = BitBoard::from("a7/a7/a7/a7/a7/a7/a7/a7 b").unwrap();
    assert_eq!(b.to_obf(),
        "O-------O-------O-------O-------O-------O-------O-------O------- X");
    assert_eq!(b.fixedstones(), (0, 8));
    let b = b.rotate180();
    assert_eq!(b.to_obf(),
        "-------O-------O-------O-------O-------O-------O-------O-------O X");
    assert_eq!(b.fixedstones(), (0, 8));
    let b = BitBoard::from("dD/dD/dD/dD/dD/dD/dD/dD b").unwrap();
    assert_eq!(b.to_obf(),
        "OOOOXXXXOOOOXXXXOOOOXXXXOOOOXXXXOOOOXXXXOOOOXXXXOOOOXXXXOOOOXXXX X");
    assert_eq!(b.fixedstones(), (32, 32));
    let b = b.rotate180();
    assert_eq!(b.to_obf(),
        "XXXXOOOOXXXXOOOOXXXXOOOOXXXXOOOOXXXXOOOOXXXXOOOOXXXXOOOOXXXXOOOO X");
    assert_eq!(b.fixedstones(), (32, 32));
    let b = BitBoard::from("h/h/h/h/H/H/H/H b").unwrap();
    assert_eq!(b.to_obf(),
        "OOOOOOOOOOOOOOOOOOOOOOOOOOOOOOOOXXXXXXXXXXXXXXXXXXXXXXXXXXXXXXXX X");
    assert_eq!(b.fixedstones(), (32, 32));
    let b = b.rotate180();
    assert_eq!(b.to_obf(),
        "XXXXXXXXXXXXXXXXXXXXXXXXXXXXXXXXOOOOOOOOOOOOOOOOOOOOOOOOOOOOOOOO X");
    assert_eq!(b.fixedstones(), (32, 32));
    let b = BitBoard::from("h/h/8/8/8/8/H/H b").unwrap();
    assert_eq!(b.to_obf(),
        "OOOOOOOOOOOOOOOO--------------------------------XXXXXXXXXXXXXXXX X");
    assert_eq!(b.fixedstones(), (16, 16));
    let b = b.rotate180();
    assert_eq!(b.to_obf(),
        "XXXXXXXXXXXXXXXX--------------------------------OOOOOOOOOOOOOOOO X");
    assert_eq!(b.fixedstones(), (16, 16));
    let b = BitBoard::from("b4B/b4B/b4B/b4B/b4B/b4B/b4B/b4B w").unwrap();
    assert_eq!(b.to_obf(),
        "OO----XXOO----XXOO----XXOO----XXOO----XXOO----XXOO----XXOO----XX O");
    assert_eq!(b.fixedstones(), (16, 16));
    let b = b.rotate180();
    assert_eq!(b.to_obf(),
        "XX----OOXX----OOXX----OOXX----OOXX----OOXX----OOXX----OOXX----OO O");
    assert_eq!(b.fixedstones(), (16, 16));
    let b = BitBoard::from("1A6/A1eA/1a6/1a6/1a6/1a6/1a6/1A6 b").unwrap();
    assert_eq!(b.to_obf(),
        "-X------X-OOOOOX-O-------O-------O-------O-------O-------X------ X");
    assert!(b.checkreverse(1, 1));
    assert_eq!(b.fixedstones(), (0, 0));
    assert_eq!(b.count(), 4 - 10);
    let mv = b.genmove();
    assert_eq!(mv, Some(vec![(2, 2), (4, 3), (3, 4)]));
    let b = b.make_move(2, 2);
    assert!(b.is_ok());
    let b = b.unwrap();
    assert_eq!(b.to_obf(),
        "-X------XXXXXXXX-X-------X-------X-------X-------X-------X------ O");
    assert_eq!(b.fixedstones(), (0, 0));
    assert_eq!(b.count(), 15);
    let mv = b.genmove();
    assert_eq!(mv, Some(vec![]));
    let b = BitBoard::from("1A6/A1eA/1a6/1a6/1a6/1a6/1a6/1A6 b").unwrap();
    let b = b.rotate180();
    assert_eq!(b.to_obf(),
        "------X-------O-------O-------O-------O-------O-XOOOOO-X------X- X");
    assert!(b.checkreverse(6, 6));
    assert_eq!(b.fixedstones(), (0, 0));
    assert_eq!(b.count(), 4 - 10);
    let mv = b.genmove();
    assert_eq!(mv, Some(vec![(6, 5), (5, 6), (7, 7)]));
    let b = b.make_move(7, 7);
    assert!(b.is_ok());
    let b = b.unwrap();
    assert_eq!(b.to_obf(),
        "------X-------X-------X-------X-------X-------X-XXXXXXXX------X- O");
    assert_eq!(b.fixedstones(), (0, 0));
    assert_eq!(b.count(), 15);
    let mv = b.genmove();
    assert_eq!(mv, Some(vec![]));
    let b = BitBoard::from("2A5/2a5/Aa1dA/2a5/2a5/2a5/2a5/2A5 b").unwrap();
    assert_eq!(b.to_obf(),
        "--X-------O-----XO-OOOOX--O-------O-------O-------O-------X----- X");
    assert!(b.checkreverse(2, 2));
    assert_eq!(b.fixedstones(), (0, 0));
    assert_eq!(b.count(), 4 - 10);
    let mv = b.genmove();
    assert_eq!(mv, Some(vec![(3, 3)]));
    let b = b.make_move(3, 3);
    assert!(b.is_ok());
    let b = b.unwrap();
    assert_eq!(b.to_obf(),
        "--X-------X-----XXXXXXXX--X-------X-------X-------X-------X----- O");
    assert_eq!(b.fixedstones(), (0, 0));
    assert_eq!(b.count(), 15);
    let mv = b.genmove();
    assert_eq!(mv, Some(vec![]));
    let b = BitBoard::from("2A5/2a5/Aa1dA/2a5/2a5/2a5/2a5/2A5 b").unwrap();
    let b = b.rotate180();
    assert_eq!(b.to_obf(),
        "-----X-------O-------O-------O-------O--XOOOO-OX-----O-------X-- X");
    assert!(b.checkreverse(5, 5));
    assert_eq!(b.fixedstones(), (0, 0));
    assert_eq!(b.count(), 4 - 10);
    let mv = b.genmove();
    assert_eq!(mv, Some(vec![(6, 6)]));
    let b = b.make_move(6, 6);
    assert!(b.is_ok());
    let b = b.unwrap();
    assert_eq!(b.to_obf(),
        "-----X-------X-------X-------X-------X--XXXXXXXX-----X-------X-- O");
    assert_eq!(b.fixedstones(), (0, 0));
    assert_eq!(b.count(), 15);
    let mv = b.genmove();
    assert_eq!(mv, Some(vec![]));
    let b = BitBoard::from("B6/A1eA/1b5/1a1a4/1a2a3/1a3a2/1a4a1/1A5A b").unwrap();
    assert_eq!(b.to_obf(),
        "XX------X-OOOOOX-OO------O-O-----O--O----O---O---O----O--X-----X X");
    assert!(b.checkreverse(1, 1));
    assert_eq!(b.fixedstones(), (4, 0));
    assert_eq!(b.count(), 6 - 15);
    let mv = b.genmove();
    assert_eq!(mv, Some(vec![(2, 2), (4, 3), (3, 4)]));
    let b = b.make_move(2, 2);
    assert!(b.is_ok());
    let b = b.unwrap();
    assert_eq!(b.to_obf(),
        "XX------XXXXXXXX-XX------X-X-----X--X----X---X---X----X--X-----X O");
    assert_eq!(b.fixedstones(), (4, 0));
    assert_eq!(b.count(), 22);
    let mv = b.genmove();
    assert_eq!(mv, Some(vec![]));
    let b = BitBoard::from("B6/A1eA/1b5/1a1a4/1a2a3/1a3a2/1a4a1/1A5A b").unwrap();
    let b = b.rotate180();
    assert_eq!(b.to_obf(),
        "X-----X--O----O---O---O----O--O-----O-O------OO-XOOOOO-X------XX X");
    assert!(b.checkreverse(6, 6));
    assert_eq!(b.fixedstones(), (4, 0));
    assert_eq!(b.count(), 6 - 15);
    let mv = b.genmove();
    assert_eq!(mv, Some(vec![(6, 5), (5, 6), (7, 7)]));
    let b = b.make_move(7, 7);
    assert!(b.is_ok());
    let b = b.unwrap();
    assert_eq!(b.to_obf(),
        "X-----X--X----X---X---X----X--X-----X-X------XX-XXXXXXXX------XX O");
    assert_eq!(b.fixedstones(), (4, 0));
    assert_eq!(b.count(), 22);
    let mv = b.genmove();
    assert_eq!(mv, Some(vec![]));
    let b = BitBoard::from("A1A1A3/1c4/Aa1dA/1c4/A1a1a3/2a2a2/2a3a1/2A4A b").unwrap();
    assert_eq!(b.to_obf(),
        "X-X-X----OOO----XO-OOOOX-OOO----X-O-O-----O--O----O---O---X----X X");
    assert!(b.checkreverse(2, 2));
    assert_eq!(b.fixedstones(), (2, 0));
    assert_eq!(b.count(), 8 - 17);
    let mv = b.genmove();
    // b.put();
    assert_eq!(mv, Some(vec![(3, 3), (6, 4), (4, 6)]));
    let b = b.make_move(3, 3);
    assert!(b.is_ok());
    let b = b.unwrap();
    assert_eq!(b.to_obf(),
        "X-X-X----XXX----XXXXXXXX-XXX----X-X-X-----X--X----X---X---X----X O");
    assert_eq!(b.fixedstones(), (2, 0));
    assert_eq!(b.count(), 26);
    let mv = b.genmove();
    assert_eq!(mv, Some(vec![]));
    let b = BitBoard::from("A1A1A3/1c4/Aa1dA/1c4/A1a1a3/2a2a2/2a3a1/2A4A b").unwrap();
    let b = b.rotate180();
    assert_eq!(b.to_obf(),
        "X----X---O---O----O--O-----O-O-X----OOO-XOOOO-OX----OOO----X-X-X X");
    assert!(b.checkreverse(5, 5));
    assert_eq!(b.fixedstones(), (2, 0));
    assert_eq!(b.count(), 8 - 17);
    let mv = b.genmove();
    assert_eq!(mv, Some(vec![(5, 3), (3, 5), (6, 6)]));
    let b = b.make_move(6, 6);
    assert!(b.is_ok());
    let b = b.unwrap();
    assert_eq!(b.to_obf(),
        "X----X---X---X----X--X-----X-X-X----XXX-XXXXXXXX----XXX----X-X-X O");
    assert_eq!(b.fixedstones(), (2, 0));
    assert_eq!(b.count(), 26);
    let mv = b.genmove();
    assert_eq!(mv, Some(vec![]));
    // difficult to count correctly
    // difficult to count correctly
    // let b = BitBoard::from("H/AaF/C5/D4/C1A3/C2A2/C3A1/C4A b").unwrap();
    // assert_eq!(b.fixedstones(), (34, 1));
    // let b = b.rotate180();
    // assert_eq!(b.fixedstones(), (34, 1));
    // difficult to count correctly
    // let b = BitBoard::from("H/aG/C5/D4/C1A3/C2A2/C3A1/C4A b").unwrap();
    // assert_eq!(b.fixedstones(), (31, 1));
    // let b = b.rotate180();
    // assert_eq!(b.fixedstones(), (31, 1));
    assert_eq!(count_emptycells("8/8/8/3Aa3/3aA3/8/8/8 b").unwrap(), 60);
    assert_eq!(count_stones("8/8/8/3Aa3/3aA3/8/8/8 b").unwrap(), 4);
    assert_eq!(count_emptycells("H/aG/C5/D4/C1A3/C2A2/C3A1/C4A b").unwrap(), 25);
    assert_eq!(count_stones("H/aG/C5/D4/C1A3/C2A2/C3A1/C4A b").unwrap(), 39);
    assert_eq!(count_emptycells("H/AaF/C5/D4/C1A3/C2A2/C3A1/C4A b").unwrap(), 25);
    assert_eq!(count_stones("H/AaF/C5/D4/C1A3/C2A2/C3A1/C4A b").unwrap(), 39);
    let revchktbl = [
        ("-OOOOOOX-------------------------------------------------------- X", 0, 0),
        ("-OOOOOX--------------------------------------------------------- X", 0, 0),
        ("-OOOOX---------------------------------------------------------- X", 0, 0),
        ("-OOOX----------------------------------------------------------- X", 0, 0),
        ("-OOX------------------------------------------------------------ X", 0, 0),
        ("-OX------------------------------------------------------------- X", 0, 0),
        ("--------O-------O-------O-------O-------O-------O-------X------- X", 0, 0),
        ("--------O-------O-------O-------O-------O-------X--------------- X", 0, 0),
        ("--------O-------O-------O-------O-------X----------------------- X", 0, 0),
        ("--------O-------O-------O-------X------------------------------- X", 0, 0),
        ("--------O-------O-------X--------------------------------------- X", 0, 0),
        ("--------O-------X----------------------------------------------- X", 0, 0),
        ("---------O--------O--------O--------O--------O--------O--------X X", 0, 0),
        ("---------O--------O--------O--------O--------O--------X--------X X", 0, 0),
        ("---------O--------O--------O--------O--------X--------O--------X X", 0, 0),
        ("---------O--------O--------O--------X--------O--------O--------X X", 0, 0),
        ("---------O--------O--------X--------O--------O--------O--------X X", 0, 0),
        ("---------O--------X--------O--------O--------O--------O--------X X", 0, 0),
        ("XOOOOOO--------------------------------------------------------- X", 7, 0),
        ("-XOOOOO--------------------------------------------------------- X", 7, 0),
        ("--XOOOO--------------------------------------------------------- X", 7, 0),
        ("---XOOO--------------------------------------------------------- X", 7, 0),
        ("----XOO--------------------------------------------------------- X", 7, 0),
        ("-----XO--------------------------------------------------------- X", 7, 0),
        ("X-------O-------O-------O-------O-------O-------O--------------- X", 0, 7),
        ("X-------X-------O-------O-------O-------O-------O--------------- X", 0, 7),
        ("X-------O-------X-------O-------O-------O-------O--------------- X", 0, 7),
        ("X-------O-------O-------X-------O-------O-------O--------------- X", 0, 7),
        ("X-------O-------O-------O-------X-------O-------O--------------- X", 0, 7),
        ("X-------O-------O-------O-------O-------X-------O--------------- X", 0, 7),
        ("X--------O--------O--------O--------O--------O--------O--------- X", 7, 7),
        ("-------X------O------O------O------O------O------O-------------- X", 0, 7),
        ("-------X------X------O------O------O------O------O-------------- X", 0, 7),
        ("-------X------O------X------O------O------O------O-------------- X", 0, 7),
        ("-------X------O------O------X------O------O------O-------------- X", 0, 7),
        ("-------X------O------O------O------X------O------O-------------- X", 0, 7),
        ("-------X------O------O------O------O------X------O-------------- X", 0, 7),
        ("--------------O------O------O------O------O------O------X------- X", 7, 0),
        ("--------------O------O------O------O------O------X------X------- X", 7, 0),
        ("--------------O------O------O------O------X------O------X------- X", 7, 0),
        ("--------------O------O------O------X------O------O------X------- X", 7, 0),
        ("--------------O------O------X------O------O------O------X------- X", 7, 0),
        ("--------------O------X------O------O------O------O------X------- X", 7, 0),
        ("-----------OOO---OOO-OO----OOO----O-O-O--O--O-------O-------X--- X", 4, 2),
        ("-----------OOO---OOO-OO----OOO----O-O-O--O--O---X---O----------- X", 4, 2),
        ("-----------OOO--XOOO-OO----OOO----O-O-O--O--O-------O----------- X", 4, 2),
        ("--X--------OOO---OOO-OO----OOO----O-O-O--O--O-------O----------- X", 4, 2),
        ("----X------OOO---OOO-OO----OOO----O-O-O--O--O-------O----------- X", 4, 2),
        ("------X----OOO---OOO-OO----OOO----O-O-O--O--O-------O----------- X", 4, 2),
        ("-----------OOO---OOO-OOX---OOO----O-O-O--O--O-------O----------- X", 4, 2),
        ("-----------OOO---OOO-OO----OOO----O-O-O--O--O--X----O----------- X", 4, 2),
        ("X-------OO-------OOOOOO-OO------O-O-----O--O----O---O----------- X", 0, 2),
        ("--X-----OO-------OOOOOO-OO------O-O-----O--O----O---O----------- X", 0, 2),
        ("--------OO-------OOOOOOXOO------O-O-----O--O----O---O----------- X", 0, 2),
        ("--------OO-------OOOOOO-OO------O-O-----O--O----O---O--------X-- X", 0, 2),
        ("--------OO-------OOOOOO-OO------O-O-----O--O----O---O---X------- X", 0, 2),
        ("--X------XOX-----X-X-----XXX------------------------------------ X", 2, 2),
        ("X--------OOO-----O-O-----OOO------------------------------------ X", 2, 2),
        ("---------OOO----XO-O-----OOO------------------------------------ X", 2, 2),
        ("---------OOO-----O-O-----OOO----X------------------------------- X", 2, 2),
        ("---------OOO-----O-O-----OOO--------X--------------------------- X", 2, 2),
        ("---------OOO-----O-OX----OOO------------------------------------ X", 2, 2),
        ("----X----OOO-----O-O-----OOO------------------------------------ X", 2, 2),
        ("--X------OOO-----O-OO----OOO------O-O--------------------------- X", 2, 2),
        ("X--------OOO-----O-OO----OOO------O-O--------------------------- X", 2, 2),
        ("---------OOO----XO-OO----OOO------O-O--------------------------- X", 2, 2),
        ("---------OOO-----O-OO----OOO----X-O-O--------------------------- X", 2, 2),
        ("---------OOO-----O-OO----OOO------O-O-----X--------------------- X", 2, 2),
        ("---------OOO-----O-OO----OOO------O-O--------X------------------ X", 2, 2),
        ("---------OOO-----O-OOX---OOO------O-O--------------------------- X", 2, 2),
        ("----X----OOO-----O-OO----OOO------O-O--------------------------- X", 2, 2),

        ("--X------OOO-----O-OOO---OOO------O-O-----O--O------------------ X", 2, 2),
        ("X--------OOO-----O-OOO---OOO------O-O-----O--O------------------ X", 2, 2),
        ("---------OOO----XO-OOO---OOO------O-O-----O--O------------------ X", 2, 2),
        ("---------OOO-----O-OOO---OOO----X-O-O-----O--O------------------ X", 2, 2),
        ("---------OOO-----O-OOO---OOO------O-O-----O--O----X------------- X", 2, 2),
        ("---------OOO-----O-OOO---OOO------O-O-----O--O--------X--------- X", 2, 2),
        ("---------OOO-----O-OOOX--OOO------O-O-----O--O------------------ X", 2, 2),
        ("----X----OOO-----O-OOO---OOO------O-O-----O--O------------------ X", 2, 2),

        ("--X------OOO-----O-OOOO--OOO------O-O-----O--O----O---O--------- X", 2, 2),
        ("X--------OOO-----O-OOOO--OOO------O-O-----O--O----O---O--------- X", 2, 2),
        ("---------OOO----XO-OOOO--OOO------O-O-----O--O----O---O--------- X", 2, 2),
        ("---------OOO-----O-OOOO--OOO----X-O-O-----O--O----O---O--------- X", 2, 2),
        ("---------OOO-----O-OOOO--OOO------O-O-----O--O----O---O---X----- X", 2, 2),
        ("---------OOO-----O-OOOO--OOO------O-O-----O--O----O---O--------X X", 2, 2),
        ("---------OOO-----O-OOOOX-OOO------O-O-----O--O----O---O--------- X", 2, 2),
        ("----X----OOO-----O-OOOO--OOO------O-O-----O--O----O---O--------- X", 2, 2),
    ];
    for (obf, x, y) in revchktbl {
        let b = BitBoard::from_obf(obf);
        assert!(b.checkreverse(x, y));
        let b = b.rotate180();
        assert!(b.checkreverse(NUMCELL - 1 - x, NUMCELL - 1 - y));
    }
    for y in 1..NUMCELL - 1 {
        for x in 1..NUMCELL - 1 {
            let mut b = BitBoard::from_obf(
                "XXXXXXXXXOOOOOOXXOOOOOOXXOOOOOOXXOOOOOOXXOOOOOOXXOOOOOOXXXXXXXXX X");
            let bit = LSB_CELL << BitBoard::index(x as usize, y as usize);
            let mask = !bit;
            b.white &= mask;
            assert!(b.checkreverse(x, y));
        }
    }
    let revchktbl = [
        ("---------------------------------------------------------------- X", 2, 2),
        ("XXXXXXXXXXXXXXXXXX-XXXXXXXXXXXXXXXXXXXXXXXXXXXXXXXXXXXXXXXXXXXXX X", 2, 2),
        ("OOOOOOOOOOOOOOOOOO-OOOOOOOOOOOOOOOOOOOOOOOOOOOOOOOOOOOOOOOOOOOOO X", 2, 2),
        ("XXXXXXXXXXXXXXXXXX-XXXXXXXXXXXXXXXXXXXXXXXXXXXXXXXXXXXXXXXXXXXXX X", 2, 2),
        ("---------OOOOOO--O-OOOO--OOOOOO--OOOOOO--OOOOOO--OOOOOO--------- X", 2, 2),
        ("---------OOO-----O-O-----OOO------------------------------------ X", 2, 2),
        ("---------OOO-----O-OO----OOO------O-O--------------------------- X", 2, 2),
        ("---------OOO-----O-OOO---OOO------O-O-----O--O------------------ X", 2, 2),
        ("---------XXX-----X-X-----XXX------------------------------------ X", 2, 2),
        ("---------XXX-----X-XX----XXX------X-X--------------------------- X", 2, 2),
        ("---------XXX-----X-XXX---XXX------X-X-----X--X------------------ X", 2, 2),
        ("-X-------------------------------------------------------------- X", 0, 0),
        ("------X--------------------------------------------------------- X", 7, 0),
        ("--------X------------------------------------------------------- X", 0, 0),
        ("---------X--------O--------O--------O--------O--------O--------X X", 0, 0),
        ("X-------O-------O-------O-------O-------O-------X--------------- X", 0, 7),
        ("-------X------O------O------O------O------O------X-------------- X", 0, 7),
        ("--------------X------O------O------O------O------O------X------- X", 7, 0),
    ];
    for (obf, x, y) in revchktbl {
        let b = BitBoard::from_obf(obf);
        assert!(!b.checkreverse(x, y));
        let b = b.rotate180();
        assert!(!b.checkreverse(NUMCELL - 1 - x, NUMCELL - 1 - y));
    }
    for y in 0..NUMCELL {
        for x in 0..NUMCELL {
            let b = BitBoard::from_obf(
                "---------------------------------------------------------------- X");
            assert!(!b.checkreverse(x, y));
            let mut b = BitBoard::from_obf(
                "XXXXXXXXXXXXXXXXXXXXXXXXXXXXXXXXXXXXXXXXXXXXXXXXXXXXXXXXXXXXXXXX X");
            let bit = LSB_CELL << BitBoard::index(x as usize, y as usize);
            let mask = !bit;
            b.black &= mask;
            assert!(!b.checkreverse(x, y));

            let mut b = BitBoard::from_obf(
                "OOOOOOOOOOOOOOOOOOOOOOOOOOOOOOOOOOOOOOOOOOOOOOOOOOOOOOOOOOOOOOOO X");
            b.white &= mask;
            assert!(!b.checkreverse(x, y));
        }
    }
}

#[test]
fn no_run_wraps_past_the_bottom_edge() {
    // black at (1, 0), a lone white stone at (0, 7), black to move
    let b = BitBoard::from("1A6/8/8/8/8/8/8/a7 b").unwrap();
    assert_eq!(b.black, LSB_CELL << 8);
    assert_eq!(b.white, LSB_CELL << 7);
    assert!(!b.checkreverse(0, 6));
    assert_eq!(b.genmove(), Some(vec![]));
    let after = b.make_move(1, 7).unwrap();
    assert_eq!(after.white, b.white);
    assert_eq!(after.black, b.black | (LSB_CELL << 6));
    let mut r = b.clone();
    r.reverse(0, 6);
    assert_eq!(r.white, b.white);
}

#[test]
fn the_rotated_board_has_no_move_either() {
    // black at (6, 7), white at (7, 0): the mirror of the board above
    let b = BitBoard::from("1A6/8/8/8/8/8/8/a7 b").unwrap().rotate180();
    assert!(!b.checkreverse(7, 1));
    assert_eq!(b.genmove(), Some(vec![]));
}

#[test]
fn a_move_onto_a_stone_is_refused_whoever_moves() {
    let mut b = BitBoard::new();
    b.teban = i8::MIN;
    assert!(matches!(b.make_move(4, 4), Err("stone exists.")));
}
