use logslm::synth::{anomaly, anomaly_for_service, build_corpus, choice, format_line, normal_line, Level};

fn fields(line: &str) -> Vec<String> {
    line.split(' ').map(|s| s.to_string()).collect()
}

fn check_normal(line: &str, level: &str) {
    let f = fields(line);
    assert_eq!(f.len(), 6, "{line}");
    let svc = f[0].strip_prefix("svc=").unwrap();
    assert!(["auth", "api", "db", "cache", "worker"].contains(&svc));
    assert_eq!(f[1], format!("lvl={level}"));
    assert!(["GET", "POST", "PUT", "DELETE"].contains(&f[2].as_str()));
    assert!(["/login", "/logout", "/users", "/orders", "/cart", "/health", "/search"]
        .contains(&f[3].as_str()));
    let lat: u32 = f[5].strip_suffix("ms").unwrap().parse().unwrap();
    if level == "ERROR" {
        assert!(["400", "401", "403", "404", "500", "503"].contains(&f[4].as_str()));
        assert!((200..900).contains(&lat));
    } else {
        assert!(["200", "201", "204", "301", "302"].contains(&f[4].as_str()));
        assert!((2..250).contains(&lat));
    }
}

#[test]
fn normal_lines_follow_the_grammar() {
    for _ in 0..200 {
        check_normal(&normal_line(Level::Info), "INFO");
        check_normal(&normal_line(Level::Warn), "WARN");
        check_normal(&normal_line(Level::Error), "ERROR");
    }
}

#[test]
fn choice_picks_an_element() {
    let xs = ["a", "b", "c"];
    for _ in 0..50 {
        assert!(xs.contains(&choice(&xs)));
    }
    assert_eq!(choice(&["only"]), "only");
}

#[test]
fn level_names() {
    assert_eq!(Level::Info.name(), "INFO");
    assert_eq!(Level::Warn.name(), "WARN");
    assert_eq!(Level::Error.name(), "ERROR");
}

#[test]
fn garbage_anomaly_is_fixed() {
    assert_eq!(
        anomaly("garbage", || Level::Info),
        "svc=??? lvl=?? PATCH /../etc/passwd 999 -1ms"
    );
}

#[test]
fn templated_anomalies() {
    for (kind, rest) in [
        ("weird_method", " lvl=INFO TRACE /admin 200 5ms"),
        ("huge_lat", " lvl=INFO GET /health 200 89000ms"),
        ("bad_code", " lvl=INFO POST /users 500 12ms"),
    ] {
        let line = anomaly(kind, || Level::Error);
        let svc = line.strip_prefix("svc=").unwrap().strip_suffix(rest).unwrap();
        assert!(["auth", "api", "db", "cache", "worker"].contains(&svc), "{line}");
    }
}

#[test]
fn other_kinds_give_normal_lines() {
    check_normal(&anomaly("normal", || Level::Warn), "WARN");
    check_normal(&anomaly("", || Level::Error), "ERROR");
    check_normal(&anomaly("Garbage", || Level::Info), "INFO");
}

#[test]
fn anomalies_are_not_normal_lines() {
    let normal: Vec<String> = (0..500).map(|_| normal_line(Level::Info)).collect();
    let bad = anomaly("bad_code", || Level::Info);
    let huge = anomaly("huge_lat", || Level::Info);
    assert!(!normal.contains(&bad));
    assert!(!normal.contains(&huge));
    // the syntactic anomalies hold characters no normal line has
    assert!(normal.iter().all(|l| !l.contains('?') && !l.contains('C')));
    assert!(anomaly("garbage", || Level::Info).contains('?'));
    assert!(anomaly("weird_method", || Level::Info).contains('C'));
}

#[test]
fn corpus_has_n_terminated_normal_lines() {
    let corpus = build_corpus(25, || Level::Warn);
    assert!(corpus.ends_with('\n'));
    let lines: Vec<&str> = corpus.split_terminator('\n').collect();
    assert_eq!(lines.len(), 25);
    for l in lines {
        check_normal(l, "WARN");
    }
    assert_eq!(build_corpus(0, || Level::Info), "");
}

#[test]
fn formatting_given_fields() {
    assert_eq!(
        format_line("db", Level::Error, "PUT", "/cart", "503", 640),
        "svc=db lvl=ERROR PUT /cart 503 640ms"
    );
    assert_eq!(
        anomaly_for_service("weird_method", "api"),
        Some("svc=api lvl=INFO TRACE /admin 200 5ms".to_string())
    );
    assert_eq!(
        anomaly_for_service("huge_lat", "db"),
        Some("svc=db lvl=INFO GET /health 200 89000ms".to_string())
    );
    assert_eq!(
        anomaly_for_service("bad_code", "cache"),
        Some("svc=cache lvl=INFO POST /users 500 12ms".to_string())
    );
    assert_eq!(anomaly_for_service("garbage", "db"), None);
}

#[test]
fn corpus_levels_come_from_the_draw() {
    let corpus = build_corpus(30, || Level::Error);
    assert!(corpus.lines().all(|l| l.contains(" lvl=ERROR ")));
}
