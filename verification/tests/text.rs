use smis_assembler::text::{
    chars_of, count_words, get_word, is_blankline, is_comment, is_label, is_whitespace,
    split_words, trim_line, without_first_word,
};

fn chars(s: &str) -> Vec<char> {
    s.chars().collect()
}

#[test]
fn whitespace_follows_unicode_property() {
    for c in [' ', '\t', '\n', '\r', '\u{b}', '\u{c}', '\u{85}', '\u{a0}', '\u{2003}', '\u{3000}'] {
        assert!(is_whitespace(c), "{:?}", c);
    }
    for c in ['a', 'R', '#', ':', '/', '\u{200b}', '0'] {
        assert!(!is_whitespace(c), "{:?}", c);
    }
    for c in ['\u{0}', ' ', 'x', '\u{2028}', '\u{1680}', '\u{feff}'] {
        assert_eq!(is_whitespace(c), c.is_whitespace());
    }
}

#[test]
fn chars_of_keeps_every_character() {
    assert_eq!(chars_of("R1 #2"), chars("R1 #2"));
    assert_eq!(chars_of(""), Vec::<char>::new());
}

#[test]
fn words_are_split_on_whitespace() {
    assert_eq!(count_words("ADD R1 R2 R3"), 4);
    assert_eq!(count_words("   "), 0);
    assert_eq!(count_words(""), 0);
    assert_eq!(count_words("\tNOT  R1\u{3000}R2  "), 3);
    assert_eq!(
        split_words(&chars("  a bc\td  ")),
        vec![chars("a"), chars("bc"), chars("d")]
    );
}

#[test]
fn get_word_by_index() {
    assert_eq!(get_word("ADD R1  R2", 0), Some(chars("ADD")));
    assert_eq!(get_word("ADD R1  R2", 2), Some(chars("R2")));
    assert_eq!(get_word("ADD R1  R2", 3), None);
    assert_eq!(get_word("", 0), None);
}

#[test]
fn without_first_word_keeps_the_rest() {
    assert_eq!(without_first_word("JMP  loop "), chars("  loop "));
    assert_eq!(without_first_word("  HALT"), chars(""));
    assert_eq!(without_first_word("   "), chars(""));
    assert_eq!(without_first_word("a b c"), chars(" b c"));
}

#[test]
fn trim_line_drops_outer_whitespace() {
    assert_eq!(trim_line("  x y \t"), chars("x y"));
    assert_eq!(trim_line(" \t "), chars(""));
    assert_eq!(trim_line("x"), chars("x"));
}

#[test]
fn blank_lines() {
    assert!(is_blankline(""));
    assert!(is_blankline(" \t \u{a0}"));
    assert!(!is_blankline(" a"));
}

#[test]
fn comment_lines() {
    assert!(is_comment("// note"));
    assert!(is_comment("   //"));
    assert!(!is_comment("/ / x"));
    assert!(!is_comment("ADD R1 R2 R3 // x"));
    assert!(!is_comment("/"));
}

#[test]
fn label_lines() {
    assert!(is_label("loop:"));
    assert!(is_label("  loop:"));
    assert!(!is_label("loop:  "));
    assert!(!is_label("a b:"));
    assert!(!is_label("//x:"));
    assert!(!is_label(""));
    assert!(!is_label("loop"));
    assert!(is_label(":"));
}

#[test]
fn line_kinds_do_not_overlap() {
    for line in ["", "  ", "// c", "x:", "  y:", "ADD R1 R2 R3", "//:"] {
        let kinds = [is_blankline(line), is_comment(line), is_label(line)];
        assert!(kinds.iter().filter(|k| **k).count() <= 1, "{:?}", line);
    }
}
