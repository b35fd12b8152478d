use writest::history::{bytes_equal, config_dir, config_file, history_record, parse_history, plan_history_update, HistoryUpdate};

fn v(s: &str) -> Vec<u8> {
    s.as_bytes().to_vec()
}

#[test]
fn parse_history_lists_most_recent_first() {
    assert_eq!(parse_history(b"\n/a\n/b\n/c"), vec![v("/c"), v("/b"), v("/a")]);
}

#[test]
fn parse_history_of_empty_file_is_empty() {
    assert_eq!(parse_history(b""), Vec::<Vec<u8>>::new());
}

#[test]
fn parse_history_keeps_text_before_the_first_newline_out() {
    assert_eq!(parse_history(b"junk\n/a"), vec![v("/a")]);
    assert_eq!(parse_history(b"junk"), Vec::<Vec<u8>>::new());
    assert_eq!(parse_history(b"\n/a\n"), vec![v(""), v("/a")]);
}

#[test]
fn parse_history_matches_split() {
    let text = "\n/x/y.st\n\n/z.st\nq";
    let mut expected: Vec<Vec<u8>> = text.split('\n').map(v).collect();
    expected.remove(0);
    expected.reverse();
    assert_eq!(parse_history(text.as_bytes()), expected);
}

#[test]
fn records_round_trip() {
    let files = ["/one.st", "/two.st", "/three.st"];
    let mut config = Vec::new();
    for f in files {
        config.extend(history_record(f.as_bytes()));
    }
    assert_eq!(config, v("\n/one.st\n/two.st\n/three.st"));
    assert_eq!(parse_history(&config), vec![v("/three.st"), v("/two.st"), v("/one.st")]);
}

#[test]
fn appending_makes_most_recent() {
    let mut config = v("\n/a\n/b");
    config.extend(history_record(b"/c"));
    assert_eq!(parse_history(&config)[0], v("/c"));
}

#[test]
fn plan_appends_a_new_file() {
    let history = vec![v("/b"), v("/a")];
    assert_eq!(plan_history_update(&history, b"/c"), HistoryUpdate::Append);
    assert_eq!(plan_history_update(&Vec::new(), b"/c"), HistoryUpdate::Append);
}

#[test]
fn plan_rewrites_when_reopening() {
    let history = vec![v("/c"), v("/b"), v("/a"), v("/b")];
    let plan = plan_history_update(&history, b"/b");
    assert_eq!(plan, HistoryUpdate::Rewrite(vec![v("/a"), v("/c")]));
    if let HistoryUpdate::Rewrite(kept) = plan {
        let mut config = Vec::new();
        for k in &kept {
            config.extend(history_record(k));
        }
        config.extend(history_record(b"/b"));
        assert_eq!(parse_history(&config), vec![v("/b"), v("/c"), v("/a")]);
    }
}

#[test]
fn bytes_equal_compares() {
    assert!(bytes_equal(b"abc", b"abc"));
    assert!(!bytes_equal(b"abc", b"abd"));
    assert!(!bytes_equal(b"ab", b"abc"));
    assert!(bytes_equal(b"", b""));
}

#[test]
fn config_paths() {
    assert_eq!(config_dir(b"bob"), v("/home/bob/.config/writeST"));
    assert_eq!(config_file(b"bob"), v("/home/bob/.config/writeST/recent_files"));
}
