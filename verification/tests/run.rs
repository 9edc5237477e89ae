use logslm::apache::{apache_anomaly, apache_anomaly_from};
use logslm::cli::{is_real_mode, parse_steps};
use logslm::corpus::{join_lines, training_cut};

#[test]
fn steps_argument() {
    assert_eq!(parse_steps(None), 1500);
    assert_eq!(parse_steps(Some("2500")), 2500);
    assert_eq!(parse_steps(Some("+7")), 7);
    assert_eq!(parse_steps(Some("0")), 0);
    assert_eq!(parse_steps(Some("")), 1500);
    assert_eq!(parse_steps(Some("+")), 1500);
    assert_eq!(parse_steps(Some("-3")), 1500);
    assert_eq!(parse_steps(Some("12a")), 1500);
    assert_eq!(parse_steps(Some("99999999999999999999999")), 1500);
    assert_eq!(parse_steps(Some("18446744073709551615")), 18446744073709551615usize);
    for s in ["42", "+42", " 42", "4_2", "007"] {
        assert_eq!(parse_steps(Some(s)), s.parse::<usize>().unwrap_or(1500));
    }
}

#[test]
fn mode_argument() {
    assert!(is_real_mode(Some("real")));
    assert!(!is_real_mode(Some("synth")));
    assert!(!is_real_mode(Some("Real")));
    assert!(!is_real_mode(None));
}

#[test]
fn nine_tenths_train() {
    assert_eq!(training_cut(2000), 1800);
    assert_eq!(training_cut(9), 8);
    assert_eq!(training_cut(0), 0);
}

#[test]
fn joined_corpus() {
    assert_eq!(join_lines(&["a", "b"]), "a\nb\n");
    assert_eq!(join_lines(&["x"]), "x\n");
    assert_eq!(join_lines(&[]), "\n");
    let lines = ["l1", "", "l3"];
    assert_eq!(join_lines(&lines), lines.join("\n") + "\n");
}

#[test]
fn apache_anomalies() {
    let real = ["[Sun Dec 04 04:47:44 2005] [error] mod_jk child workerEnv in error state 6"];
    assert_eq!(
        apache_anomaly("bad_level", &real),
        "[Sun Dec 04 04:47:44 2005] [CATASTROPHE] mod_jk child workerEnv in error state 6"
    );
    assert_eq!(apache_anomaly("other", &real), real[0]);
    assert_eq!(
        apache_anomaly("garbage", &real),
        "[Sun Dec 04 04:47:44 2005] [error] ####@@@!!!~~~%%%^^^&&&***(((|||}}}"
    );
    assert_eq!(
        apache_anomaly("injection", &real),
        "[Sun Dec 04 04:47:44 2005] [error] 1' OR '1'='1 /../../private/config"
    );
    assert_eq!(
        apache_anomaly("flood", &real),
        "[Sun Dec 04 04:47:44 2005] [notice] jk2_init() Found child 99999999999999 in scoreboard slot 99999"
    );
    let notice = ["[Sun Dec 04 04:47:44 2005] [notice] a [error] b"];
    assert_eq!(
        apache_anomaly("bad_level", &notice),
        "[Sun Dec 04 04:47:44 2005] [CATASTROPHE] a [CATASTROPHE] b"
    );
    let several = ["one", "two", "three"];
    for _ in 0..20 {
        let s = apache_anomaly("none", &several);
        assert!(several.contains(&s.as_str()));
    }
}

#[test]
fn bad_level_without_levels_keeps_line() {
    let plain = ["no level here"];
    assert_eq!(apache_anomaly("bad_level", &plain), "no level here");
    let notice = ["[notice] started"];
    assert_eq!(apache_anomaly("bad_level", &notice), "[CATASTROPHE] started");
}

#[test]
fn apache_anomaly_from_given_line() {
    assert_eq!(
        apache_anomaly_from("bad_level", "[x] [error] y"),
        "[x] [CATASTROPHE] y"
    );
    assert_eq!(apache_anomaly_from("other", "kept"), "kept");
}
