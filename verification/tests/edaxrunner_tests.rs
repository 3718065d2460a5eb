use ruversi::edaxrunner::{CassioRunner, EdaxRunner, RuversiRunner};

fn lines(text: &str) -> Vec<String> {
    text.lines().map(|l| l.to_string()).collect()
}

#[test]
fn test_edaxrunner_default_values() {
    let er = EdaxRunner::new();
    assert_eq!(er.obfpath, "/tmp/test.obf");
    assert_eq!(er.curdir, "../../edax-reversi/");
    assert_eq!(er.path, "./bin/lEdax-x64-modern");
    assert_eq!(er.evfile, "data/eval.dat");
}

#[test]
fn test_edaxrunner_config() {
    let mut er = EdaxRunner::new();
    let result = er.config("foo.obf", "./bar", "./baz", "./eval.dat");
    assert!(result.is_ok());
    assert_eq!(er.obfpath, "foo.obf");
    assert_eq!(er.curdir, "./bar");
    assert_eq!(er.path, "./baz");
    assert_eq!(er.evfile, "./eval.dat");
}

#[test]
fn test_edaxrunner_config_partial() {
    let mut er = EdaxRunner::new();
    let result = er.config("", "updated_dir", "", "");
    assert!(result.is_ok());
    assert_eq!(er.obfpath, "/tmp/test.obf");
    assert_eq!(er.curdir, "updated_dir");
    assert_eq!(er.path, "./bin/lEdax-x64-modern");
    assert_eq!(er.evfile, "data/eval.dat");
}

#[test]
fn test_edaxrunner_to_str() {
    let er = EdaxRunner::new();
    let s = er.to_str();
    assert!(s.contains("obf:/tmp/test.obf"));
    assert!(s.contains("curdir:../../edax-reversi/"));
    assert!(s.contains("edax:./bin/lEdax-x64-modern"));
    assert!(s.contains("evfile:data/eval.dat"));
}

#[test]
fn edaxrunner_to_str_exact() {
    let er = EdaxRunner::new();
    assert_eq!(
        er.to_str(),
        "obf:/tmp/test.obf, curdir:../../edax-reversi/, edax:./bin/lEdax-x64-modern, evfile:data/eval.dat"
    );
}

#[test]
fn test_edaxrunner_read_config_file() {
    let contents = "obf:/tmp/myobf.obf\ncurdir:/tmp/myedax\nedax:/tmp/ledax\nevfile::/tmp/myevfile.dat\n";
    let er = EdaxRunner::from_config("cfg.txt", Ok(lines(contents))).unwrap();
    assert_eq!(er.obfpath, "/tmp/myobf.obf");
    assert_eq!(er.curdir, "/tmp/myedax");
    assert_eq!(er.path, "/tmp/ledax");
    assert_eq!(er.evfile, "/tmp/myevfile.dat");
}

#[test]
fn edaxrunner_config_line_trims_and_ignores() {
    let mut er = EdaxRunner::new();
    er.config_line("obf:   /tmp/zzz.obf  ");
    er.config_line("evfile:/ignored");
    er.config_line("nothing here");
    assert_eq!(er.obfpath, "/tmp/zzz.obf");
    assert_eq!(er.evfile, "data/eval.dat");
}

#[test]
fn edaxrunner_config_read_error() {
    let r = EdaxRunner::from_config("missing.txt", Err("not found".to_string()));
    assert_eq!(r.err(), Some("not found".to_string()));
}

#[test]
fn test_edaxrunner_from_config_empty() {
    let er = EdaxRunner::from_config("", Ok(Vec::new())).unwrap();
    assert_eq!(er.obfpath, "/tmp/test.obf");
}

#[test]
fn test_ruversirunner_default_values() {
    let rr = RuversiRunner::new();
    assert_eq!(rr.curdir, "../ruversi2");
    assert_eq!(rr.path, "./target/release/ruversi");
    assert_eq!(rr.evfile, "data/evaltable.txt");
    assert!(rr.verbose);
}

#[test]
fn test_ruversirunner_set_verbose() {
    let mut rr = RuversiRunner::new();
    rr.set_verbose(false);
    assert!(!rr.verbose);
    rr.set_verbose(true);
    assert!(rr.verbose);
}

#[test]
fn test_ruversirunner_to_str() {
    let rr = RuversiRunner::new();
    let s = rr.to_str();
    assert!(s.contains("curdir:../ruversi2"));
    assert!(s.contains("ruversi:./target/release/ruversi"));
    assert!(s.contains("evfile:data/evaltable.txt"));
}

#[test]
fn test_ruversirunner_read_config_file() {
    let contents = "curdir:/tmp/myruversi\npath:/tmp/myruversi_bin\nevfile::/tmp/myruversi_evfile.txt\n";
    let rr = RuversiRunner::from_config("cfg.txt", Ok(lines(contents))).unwrap();
    assert_eq!(rr.curdir, "/tmp/myruversi");
    assert_eq!(rr.path, "/tmp/myruversi_bin");
    assert_eq!(rr.evfile, "/tmp/myruversi_evfile.txt");
}

#[test]
fn test_ruversirunner_from_config_empty() {
    let rr = RuversiRunner::from_config("", Ok(Vec::new())).unwrap();
    assert_eq!(rr.curdir, "../ruversi2");
}

#[test]
fn test_cassiorunner_default_values() {
    let cr = CassioRunner::new();
    assert_eq!(cr.curdir, "../../edax-reversi/");
    assert_eq!(cr.path, "./bin/lEdax-x64-modern");
    assert_eq!(cr.evfile, "data/eval.dat");
    assert_eq!(cr.cas, "-cassio");
}

#[test]
fn test_cassiorunner_to_str() {
    let cr = CassioRunner::new();
    let s = cr.to_str();
    assert!(s.contains("curdir:"));
    assert!(s.contains("path:"));
    assert!(s.contains("evfile:"));
    assert!(s.contains("cassio:"));
}

#[test]
fn test_cassiorunner_read_config_file() {
    let contents = "curdir:/tmp/mycassio\npath:/tmp/mycassio_path\nevfile:/tmp/mycassio_evfile.txt\ncas:--cassioX\n";
    let cr = CassioRunner::from_config("cfg.txt", Ok(lines(contents))).unwrap();
    assert_eq!(cr.curdir, "/tmp/mycassio");
    assert_eq!(cr.path, "/tmp/mycassio_path");
    assert_eq!(cr.evfile, "/tmp/mycassio_evfile.txt");
    assert_eq!(cr.cas, "--cassioX");
}

#[test]
fn cassiorunner_edax_line_sets_path() {
    let cr = CassioRunner::from_config("cfg.txt", Ok(lines("edax: ./edax\ncas:--abc\n"))).unwrap();
    assert_eq!(cr.path, "./edax");
    assert_eq!(cr.cas, "--abc");
}

#[test]
fn test_cassiorunner_from_config_empty() {
    let cr = CassioRunner::from_config("", Ok(Vec::new())).unwrap();
    assert_eq!(cr.curdir, "../../edax-reversi/");
}

#[test]
fn test_edaxrunner_read_config_file_not_found() {
    let r = EdaxRunner::from_config("/tmp/no_such_edaxrunner_config.txt", Err("no such file".to_string()));
    assert!(r.is_err());
}

#[test]
fn test_edaxrunner_from_config_file() {
    let er = EdaxRunner::from_config("/tmp/test_edaxrunner2_config.txt", Ok(lines("obf:/tmp/zzz.obf\n"))).unwrap();
    assert_eq!(er.obfpath, "/tmp/zzz.obf");
}

#[test]
fn test_ruversirunner_read_config_file_not_found() {
    let r = RuversiRunner::from_config("/tmp/no_such_ruversi_config.txt", Err("no such file".to_string()));
    assert!(r.is_err());
}

#[test]
fn test_ruversirunner_from_config_file() {
    let rr = RuversiRunner::from_config("/tmp/test_ruversirunner2_config.txt", Ok(lines("curdir:/tmp/abc\n"))).unwrap();
    assert_eq!(rr.curdir, "/tmp/abc");
}

#[test]
fn test_cassiorunner_read_config_file_not_found() {
    let r = CassioRunner::from_config("/tmp/no_such_cassio_config.txt", Err("no such file".to_string()));
    assert!(r.is_err());
}

#[test]
fn test_cassiorunner_from_config_file() {
    let cr = CassioRunner::from_config("/tmp/test_cassiorunner2_config.txt", Ok(lines("cas:--abc\n"))).unwrap();
    assert_eq!(cr.cas, "--abc");
}
