use ask::text::{drop_empty_lines, lines_of, take_lines, trim_str, trim_end_char};

#[test]
fn take_lines_splits_and_reassembles() {
    let whole = "a\n\nbc\r\nrest";
    let mut buffer = whole.to_string();
    let lines = take_lines(&mut buffer);
    assert_eq!(lines, vec!["a", "", "bc\r"]);
    assert_eq!(buffer, "rest");
    let mut again = String::new();
    for l in &lines {
        again.push_str(l);
        again.push('\n');
    }
    again.push_str(&buffer);
    assert_eq!(again, whole);
    assert_eq!(drop_empty_lines(&lines), vec!["a", "bc\r"]);
}

#[test]
fn lines_of_matches_std_lines() {
    for s in ["", "a", "a\n", "a\r\nb", "\n\n", "x\r", "x\r\r\n"] {
        let ours: Vec<String> = lines_of(s).into_iter().map(|l| l.into_iter().collect()).collect();
        let std_lines: Vec<String> = s.lines().map(String::from).collect();
        assert_eq!(ours, std_lines, "input {:?}", s);
    }
}

#[test]
fn trimming_matches_std() {
    for s in ["", "  a b  ", "\u{3000}x\u{a0}", "\t\n y \r"] {
        assert_eq!(trim_str(s), s.trim());
    }
    assert_eq!(trim_end_char("http://h/v1//", '/'), "http://h/v1");
}
