use project_dashboard::text::{split_lines, split_text, split_words, trim_text};

const SAMPLES: [&str; 12] = [
    "",
    "a",
    "a\n",
    "a\r\nb",
    "\n\n",
    "x\ry\r\n\r\n",
    "  lead and trail \t",
    "one\u{3000}two\u{a0}three\u{2028}",
    "a..b.",
    ".",
    "},{},",
    "k:v:w",
];

#[test]
fn lines_match_std() {
    for s in SAMPLES {
        let want: Vec<String> = s.lines().map(|l| l.to_string()).collect();
        assert_eq!(split_lines(s), want, "input {:?}", s);
    }
}

#[test]
fn words_match_std() {
    for s in SAMPLES {
        let want: Vec<String> = s.split_whitespace().map(|l| l.to_string()).collect();
        assert_eq!(split_words(s), want, "input {:?}", s);
    }
}

#[test]
fn trim_matches_std() {
    for s in SAMPLES {
        assert_eq!(trim_text(s), s.trim(), "input {:?}", s);
    }
}

#[test]
fn split_matches_std() {
    for s in SAMPLES {
        for sep in [".", ":", ",", "},", "\n"] {
            let want: Vec<String> = s.split(sep).map(|l| l.to_string()).collect();
            assert_eq!(split_text(s, sep), want, "input {:?} on {:?}", s, sep);
        }
    }
}
