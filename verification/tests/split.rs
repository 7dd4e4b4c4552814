use zsh2fish::split::{join_words, split_lines, split_words};

fn chars(s: &str) -> Vec<char> {
    s.chars().collect()
}

fn strings(parts: &Vec<Vec<char>>) -> Vec<String> {
    parts.iter().map(|p| p.iter().collect::<String>()).collect()
}

const TEXTS: [&str; 22] = [
    "",
    "\n",
    "\n\n",
    "a",
    "a\n",
    "a\nb",
    "a\nb\n",
    "a\r\nb\r\n",
    "a\r",
    "a\r\n",
    "a\rb\n",
    "\r\n",
    "\r",
    "a\r\r\nb",
    "\n\na\n\n",
    "  leading and trailing  ",
    "tabs\tand\u{3000}wide spaces",
    "    1  1700000000  ls -la\n    2  1700000001  cd /tmp\n",
    "ll='ls -la'\ng=git\n",
    " \t \n \r\n",
    "one",
    "a  b   c",
];

#[test]
fn split_lines_agrees_with_std() {
    for text in TEXTS {
        let expected: Vec<String> = text.lines().map(|l| l.to_string()).collect();
        assert_eq!(strings(&split_lines(&chars(text))), expected, "{:?}", text);
    }
}

#[test]
fn split_lines_examples() {
    assert_eq!(strings(&split_lines(&chars("a\nb\n"))), vec!["a", "b"]);
    assert_eq!(strings(&split_lines(&chars("a\r\nb"))), vec!["a", "b"]);
    assert_eq!(strings(&split_lines(&chars("a\n\nb"))), vec!["a", "", "b"]);
    assert_eq!(strings(&split_lines(&chars("a\r"))), vec!["a\r"]);
    assert_eq!(strings(&split_lines(&chars(""))), Vec::<String>::new());
    assert_eq!(strings(&split_lines(&chars("\n"))), vec![""]);
}

#[test]
fn split_words_agrees_with_std() {
    for text in TEXTS {
        let expected: Vec<String> = text.split_whitespace().map(|w| w.to_string()).collect();
        assert_eq!(strings(&split_words(&chars(text))), expected, "{:?}", text);
    }
}

#[test]
fn split_words_examples() {
    assert_eq!(strings(&split_words(&chars("  ls   -la "))), vec!["ls", "-la"]);
    assert_eq!(strings(&split_words(&chars("one"))), vec!["one"]);
    assert_eq!(strings(&split_words(&chars(" \t\n"))), Vec::<String>::new());
    assert_eq!(strings(&split_words(&chars("a\u{00A0}b"))), vec!["a", "b"]);
}

#[test]
fn join_words_puts_one_space_between() {
    let words = vec![chars("1"), chars("1700000000"), chars("ls"), chars("-la")];
    assert_eq!(join_words(&words, 0), chars("1 1700000000 ls -la"));
    assert_eq!(join_words(&words, 2), chars("ls -la"));
    assert_eq!(join_words(&words, 3), chars("-la"));
    assert_eq!(join_words(&words, 4), chars(""));
    assert_eq!(join_words(&Vec::new(), 0), chars(""));
}

#[test]
fn join_words_agrees_with_std() {
    for text in TEXTS {
        let expected = text.split_whitespace().collect::<Vec<&str>>().join(" ");
        let words = split_words(&chars(text));
        assert_eq!(join_words(&words, 0), chars(&expected), "{:?}", text);
    }
}
