use cipher::scan::find_marker;
use regex::Regex;

fn check_against_pattern(pattern: &Regex, text: &str) {
    let ours = find_marker(text);
    match pattern.captures(text) {
        Some(captures) => {
            let whole = captures.get(0).unwrap();
            let (before, marker, after) = ours.unwrap();
            assert_eq!(before, &text[..whole.start()]);
            assert_eq!(marker.as_str(), whole.as_str());
            assert_eq!(marker.name_str(), &captures[1]);
            assert_eq!(after, &text[whole.end()..]);
        }
        None => assert_eq!(ours, None),
    }
}

#[test]
fn leftmost_marker_is_the_first_match_of_the_pattern() {
    let pattern = Regex::new(r"<<(/?(SECURE|CIPHER))>>").unwrap();
    let pieces = [
        "<", "<<", ">", ">>", "/", "SECURE", "CIPHER", "S", "C", " ", "x", "\u{e9}", "\u{65e5}",
        "\u{1f512}", "<<SECURE>>", "<</SECURE>>", "<<CIPHER>>", "<</CIPHER>>", "<<SECURE", "URE>>",
        "<</", "\n",
    ];
    let mut state: u64 = 0x2545f4914f6cdd1d;
    for _ in 0..4000 {
        let mut text = String::new();
        state = state.wrapping_mul(6364136223846793005).wrapping_add(1442695040888963407);
        let count = (state >> 33) % 9;
        for _ in 0..count {
            state = state.wrapping_mul(6364136223846793005).wrapping_add(1442695040888963407);
            let pick = ((state >> 33) % (pieces.len() as u64)) as usize;
            text.push_str(pieces[pick]);
        }
        check_against_pattern(&pattern, &text);
    }
}

#[test]
fn every_later_match_is_found_from_the_rest() {
    let pattern = Regex::new(r"<<(/?(SECURE|CIPHER))>>").unwrap();
    let text = "a<<SECURE>>b<</SECURE>>c<<CIPHER>><</CIPHER>><<<</SECURE>>>";
    let mut rest = text;
    let mut offset = 0;
    loop {
        let theirs = pattern.captures_at(text, offset);
        match find_marker(rest) {
            Some((before, marker, after)) => {
                let whole = theirs.unwrap().get(0).unwrap();
                assert_eq!(before, &text[offset..whole.start()]);
                assert_eq!(marker.as_str(), whole.as_str());
                offset = whole.end();
                rest = after;
            }
            None => {
                assert!(theirs.is_none());
                break;
            }
        }
    }
    assert_eq!(rest, ">");
}
