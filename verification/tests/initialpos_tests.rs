use ruversi::bitboard::BitBoard;
use ruversi::initialpos::{InitialPos, RfenSet};
use ruversi::kifu::postxt;
use ruversi::openings::geninitpos;

fn sample() -> Vec<String> {
    [
        "# ZERO",
        "8/8/8/3Aa3/3aA3/8/8/8 b",
        "#  ONE 4",
        "8/8/8/3Aa3/2C3/8/8/8 w",
        "8/8/8/3Aa3/3B3/3A4/8/8 w",
        "8/8/4A3/3B3/3aA3/8/8/8 w // comment",
        "8/8/8/3C2/3aA3/8/8/8 w",
        "not a position",
        "# TWO",
        "8/8/8/3C2/3aA3/8/8/8 w",
        "8/8/8/3Aa3/2C3/8/8/8 w",
        "8/8/8/3C2/3aA3/8/8/8 w",
        "# ZERO",
        "8/8/8/3Aa3/3aA3/8/8/8 w",
    ]
    .iter()
    .map(|s| s.to_string())
    .collect()
}

#[test]
fn initialpos_tags_and_sets() {
    let ip = InitialPos::read(Ok(sample())).unwrap();
    assert_eq!(ip.tags(), ["ZERO", "ONE", "TWO"]);
    let zero = ip.at("ZERO").unwrap();
    assert_eq!(zero.tag, "ZERO");
    assert_eq!(zero.rfens, ["8/8/8/3Aa3/3aA3/8/8/8 b", "8/8/8/3Aa3/3aA3/8/8/8 w"]);
    let one = ip.at("ONE").unwrap();
    assert_eq!(
        one.rfens,
        [
            "8/8/8/3Aa3/2C3/8/8/8 w",
            "8/8/8/3Aa3/3B3/3A4/8/8 w",
            "8/8/4A3/3B3/3aA3/8/8/8 w",
            "8/8/8/3C2/3aA3/8/8/8 w"
        ]
    );
    assert!(ip.at("THREE").is_none());
    assert_eq!(one.len(), 4);
}

#[test]
fn initialpos_selections() {
    let ip = InitialPos::read(Ok(sample())).unwrap();
    let zo = ip.rfens(&["ONE", "ZERO"]);
    assert_eq!(
        zo,
        [
            "8/8/8/3Aa3/3aA3/8/8/8 b",
            "8/8/8/3Aa3/3aA3/8/8/8 w",
            "8/8/8/3Aa3/2C3/8/8/8 w",
            "8/8/8/3Aa3/3B3/3A4/8/8 w",
            "8/8/4A3/3B3/3aA3/8/8/8 w",
            "8/8/8/3C2/3aA3/8/8/8 w"
        ]
    );
    let two = ip.rfens_uniq(&["TWO"]);
    assert_eq!(two, ["8/8/8/3Aa3/2C3/8/8/8 w", "8/8/8/3C2/3aA3/8/8/8 w"]);
    assert_eq!(ip.rfens_all().len(), 9);
    let mut sorted = ip.rfens(&["TWO"]);
    sorted.sort();
    sorted.dedup();
    assert_eq!(sorted, two);
}

#[test]
fn initialpos_read_error() {
    let r = InitialPos::read(Err("no file".to_string()));
    assert_eq!(r.err(), Some("no file".to_string()));
}

#[test]
fn initialpos_add() {
    let mut ip = InitialPos::new();
    ip.add("A", "8/8/8/8/8/8/8/8 b");
    ip.add("B", "8/8/8/8/8/8/8/H w");
    ip.add("A", "H/8/8/8/8/8/8/8 b");
    assert_eq!(ip.tags(), ["A", "B"]);
    assert_eq!(ip.at("A").unwrap().rfens.len(), 2);
}

#[test]
fn rfenset_dump() {
    let mut rs = RfenSet::new("ONE".to_string(), "8/8/8/3Aa3/2C3/8/8/8 w".to_string());
    rs.add("8/8/8/3C2/3aA3/8/8/8 w");
    assert_eq!(rs.len(), 2);
    assert_eq!(rs.dump(), "# ONE 2\n8/8/8/3Aa3/2C3/8/8/8 w\n8/8/8/3C2/3aA3/8/8/8 w");
}

fn positions(tag: &str, rfens: &[&str]) -> Result<InitialPos, String> {
    let mut ip = InitialPos::new();
    for r in rfens {
        ip.add(tag, r);
    }
    Ok(ip)
}

#[test]
fn geninitpos_from_the_start() {
    let start = "8/8/8/3Aa3/3aA3/8/8/8 b";
    let file = positions("ZERO", &[start]);
    let (lines, res) = geninitpos(&file, "data/x.txt", "ZERO").unwrap();
    assert!(res.is_ok());
    // four first moves, three replies to each
    assert_eq!(lines.len(), 12);
    assert!(lines.iter().all(|l| l.contains(",  // ****** ")));
    let ban = BitBoard::from(start).unwrap();
    let m1 = ban.genmove().unwrap()[0];
    let ban2 = ban.make_move(m1.0, m1.1).unwrap();
    let m2 = ban2.genmove().unwrap()[0];
    let ban3 = ban2.make_move(m2.0, m2.1).unwrap();
    assert_eq!(
        lines[0],
        format!("{},  // ****** {} {}", ban3.to_str(), postxt(m1.0, m1.1), postxt(m2.0, m2.1))
    );
}

#[test]
fn geninitpos_passes_and_full_boards() {
    let lone = "8/8/8/8/8/8/8/A7 b";
    let file = positions("P", &[lone, "H/H/H/H/H/H/H/H b"]);
    let (lines, res) = geninitpos(&file, "data/x.txt", "P").unwrap();
    assert!(res.is_ok());
    let same = BitBoard::from(lone).unwrap().to_str();
    assert_eq!(lines, vec![format!("{same},  // ****** PASS PASS")]);
}

#[test]
fn geninitpos_errors() {
    let file = positions("ZERO", &["8/8/8/3Aa3/3aA3/8/8/8 b"]);
    assert_eq!(geninitpos(&file, "p.txt", "").unwrap().1, Err("error: tag is empty.".to_string()));
    assert_eq!(
        geninitpos(&file, "p.txt", "ONE").unwrap().1,
        Err("error: failed to find tag:ONE.".to_string())
    );
    let missing: Result<InitialPos, String> = Err("no file".to_string());
    assert_eq!(
        geninitpos(&missing, "p.txt", "ZERO").unwrap().1,
        Err("error: failed to read p.txt.".to_string())
    );
    let bad = positions("B", &["8/8/8/8/8/8/8/A7 b", "8/8/8/8/8/8/8/X7 b"]);
    let (lines, res) = geninitpos(&bad, "p.txt", "B").unwrap();
    assert_eq!(lines.len(), 1);
    assert_eq!(res, Err("error: reading rfen \"8/8/8/8/8/8/8/X7 b\".".to_string()));
}

/// The start of a positions file, as the program reads it from `data/`.
fn positions_file() -> Vec<String> {
    [
        "# ZERO",
        "8/8/8/3Aa3/3aA3/8/8/8 b,",
        "# ONE",
        "8/8/8/3Aa3/2C3/8/8/8 w,  // ****** d3",
        "8/8/8/3Aa3/3B3/3A4/8/8 w,  // ****** c4",
        "8/8/4A3/3B3/3aA3/8/8/8 w,  // ****** f5",
        "8/8/8/3C2/3aA3/8/8/8 w,  // ****** e6",
        "# TWO",
        "8/8/8/2aAa3/2C3/8/8/8 b,  // ****** d3 c3",
        "# THREE",
        "8/8/8/2aAa3/1C4/8/8/8 w,",
        "# FOUR",
        "8/8/8/1aAAa3/1C4/8/8/8 b,",
        "# FIVE",
        "8/8/8/1aAAa3/1B1A3/8/8/8 w,",
        "# SIX",
        "8/8/8/1aAAa3/1B1A3/3a4/8/8 b,",
    ]
    .iter()
    .map(|s| s.to_string())
    .collect()
}

#[test]
fn testinitpos() {
    let ip = InitialPos::read(Ok(positions_file()));
    assert!(ip.is_ok());
    let ipos = ip.unwrap();
    let tags = ipos.tags();
    assert_eq!(tags, ["ZERO", "ONE", "TWO", "THREE", "FOUR", "FIVE", "SIX"]);
    let zero = ipos.at("ZERO");
    assert!(zero.is_some());
    let zero = zero.unwrap();
    assert_eq!(zero.tag, "ZERO");
    assert_eq!(zero.rfens, ["8/8/8/3Aa3/3aA3/8/8/8 b".to_string()]);
    let one = ipos.at("ONE");
    assert!(one.is_some());
    let one = one.unwrap();
    assert_eq!(one.tag, "ONE");
    assert_eq!(
        one.rfens,
        [
            "8/8/8/3Aa3/2C3/8/8/8 w".to_string(),
            "8/8/8/3Aa3/3B3/3A4/8/8 w".to_string(),
            "8/8/4A3/3B3/3aA3/8/8/8 w".to_string(),
            "8/8/8/3C2/3aA3/8/8/8 w".to_string()
        ]
    );
    let zeroone = ipos.rfens(&["ZERO", "ONE"]);
    assert_eq!(
        zeroone,
        [
            "8/8/8/3Aa3/3aA3/8/8/8 b".to_string(),
            "8/8/8/3Aa3/2C3/8/8/8 w".to_string(),
            "8/8/8/3Aa3/3B3/3A4/8/8 w".to_string(),
            "8/8/4A3/3B3/3aA3/8/8/8 w".to_string(),
            "8/8/8/3C2/3aA3/8/8/8 w".to_string()
        ]
    );
}
