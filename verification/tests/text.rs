use atletiek_nu_api::text::{
    blank, join_texts, contains, ends_with, first_text_of, only_digits, parse_u32, parse_u8,
    parse_usize, replace, same, split_first_piece, split_on, split_second_piece, trim,
    trim_end_matches, up_to_digit,
};

fn s(v: &[&str]) -> Vec<String> {
    v.iter().map(|x| x.to_string()).collect()
}

#[test]
fn trim_agrees_with_std() {
    for t in ["", "  ", " a ", "\u{3000}x\u{a0}", "\t\nab c\r\n", "no_space", "\u{85}\u{2028}"] {
        assert_eq!(trim(t), t.trim());
    }
    assert!(blank(" \t\u{2003} "));
    assert!(!blank(" x "));
}

#[test]
fn replace_agrees_with_std() {
    for (t, p, r) in [
        ("John  Doe", "  ", " "),
        ("a   b", "  ", " "),
        ("1,5", ",", "."),
        ("x{{_ \"u\"}}y", "{{_ \"u\"}}", ""),
        ("aaaa", "aa", "b"),
        ("", ",", "."),
    ] {
        assert_eq!(replace(t, p, r), t.replace(p, r));
    }
}

#[test]
fn split_agrees_with_std() {
    for t in ["", "a", "1:58,3", "::", "2:31:07"] {
        let mine = split_on(t, ':');
        let std: Vec<String> = t.split(':').map(|x| x.to_string()).collect();
        assert_eq!(mine, std);
    }
    for (t, p) in [("Track Events € 6,00 20 places", "€ 6,00"), ("rust", ""), ("", ""), ("abc", "x"), ("a-b-c", "-")] {
        let mut it = t.split(p);
        assert_eq!(split_first_piece(t, p), it.next().unwrap().to_string());
        assert_eq!(split_second_piece(t, p), it.next().map(|x| x.to_string()));
    }
    assert_eq!(up_to_digit("Track 20 places"), "Track ");
    assert_eq!(up_to_digit("12"), "");
}

#[test]
fn numbers_agree_with_std() {
    for t in ["0", "42", "+7", "-1", "", "+", "4294967295", "4294967296", "12a", "007"] {
        assert_eq!(parse_u32(t), t.parse::<u32>().ok());
        assert_eq!(parse_u8(t), t.parse::<u8>().ok());
        assert_eq!(parse_usize(t), t.parse::<usize>().ok());
    }
    assert_eq!(parse_u8("256"), None);
    assert_eq!(only_digits("2024-06-15"), "20240615");
}

#[test]
fn small_operations() {
    assert!(contains("notThatImportant item", "notThatImportant"));
    assert!(!contains("abc", "abd"));
    assert!(contains("abc", ""));
    assert!(ends_with("10.85h", 'h'));
    assert!(!ends_with("", 'h'));
    assert_eq!(trim_end_matches("Sprint::", ':'), "Sprint");
    assert!(same("DNF", "DNF"));
    assert!(!same("DNF", "DNS"));
    assert_eq!(join_texts(&s(&["a", " b", "c"])), "a bc");
    assert_eq!(first_text_of(&s(&["  ", "\n x \n", "y"])), "x");
    assert_eq!(first_text_of(&s(&[" "])), "");
}
