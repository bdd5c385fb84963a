use minutes::text::{
    char_vec, contains_text, decimal_string, find_char, join_first, lowercase_all, piece_at,
    same_text, split_at_char, split_lines, text_before, trim, white_space,
};

fn strings(list: &[&str]) -> Vec<String> {
    list.iter().map(|s| s.to_string()).collect()
}

#[test]
fn characters_in_order() {
    assert_eq!(char_vec("aé☕"), vec!['a', 'é', '☕']);
    assert!(char_vec("").is_empty());
}

#[test]
fn pieces_at_positions() {
    let text = char_vec("abcab");
    let piece = char_vec("ab");
    assert!(piece_at(&text, &piece, 0));
    assert!(!piece_at(&text, &piece, 1));
    assert!(piece_at(&text, &piece, 3));
    assert!(!piece_at(&text, &piece, 4));
    assert!(!piece_at(&text, &piece, usize::MAX));
    assert!(piece_at(&text, &char_vec(""), 5));
    assert!(!piece_at(&text, &char_vec(""), 6));
}

#[test]
fn substring_search_agrees_with_std() {
    let texts = ["", "a", "aab", "abab", "weekly 1:1 katie", "ünïcode ☕ text", "aaab"];
    let pieces = ["", "a", "ab", "aab", "1:1", "☕ t", "weekly 1:1 katie!", "b"];
    for text in texts {
        for piece in pieces {
            assert_eq!(contains_text(text, piece), text.contains(piece), "{:?} {:?}", text, piece);
        }
    }
}

#[test]
fn equality_and_order_agree_with_std() {
    let texts = ["", "a", "aa", "ab", "b", "z", "é", "\u{ffff}", "\u{10000}", "a-b", "a1"];
    for a in texts {
        for b in texts {
            assert_eq!(same_text(a, b), a == b);
            assert_eq!(text_before(a, b), a < b, "{:?} {:?}", a, b);
        }
    }
}

#[test]
fn lower_case_follows_unicode() {
    let list = strings(&["HELLO", "ÉCOLE", "ὈΔΥΣΣΕΎΣ", "İ", "ß", "1:1 Katie"]);
    let expected: Vec<String> = list.iter().map(|s| s.to_lowercase()).collect();
    assert_eq!(lowercase_all(&list), expected);
    assert_eq!(lowercase_all(&list)[1], "école");
    assert!(lowercase_all(&[]).is_empty());
}

#[test]
fn white_space_and_trim_agree_with_std() {
    for code in 0u32..=0x10ffff {
        if let Some(c) = char::from_u32(code) {
            assert_eq!(white_space(c), c.is_whitespace(), "{:?}", c);
        }
    }
    for text in ["", " ", "v20.1.0\n", "\t\r\n a b \u{3000}", "\u{a0}x", "plain", "\n\n"] {
        assert_eq!(trim(text), text.trim());
    }
}

#[test]
fn characters_are_found() {
    let text = char_vec("a:b:c");
    assert_eq!(find_char(&text, ':', 0), 1);
    assert_eq!(find_char(&text, ':', 2), 3);
    assert_eq!(find_char(&text, ':', 4), 5);
    assert_eq!(find_char(&text, ':', 5), 5);
}

#[test]
fn splitting_agrees_with_std() {
    for text in ["", ":", "a", "a:b", ":a::b:", "/usr/bin:/bin", "é:☕"] {
        let expected: Vec<String> = text.split(':').map(|s| s.to_string()).collect();
        assert_eq!(split_at_char(text, ':'), expected, "{:?}", text);
    }
}

#[test]
fn lines_agree_with_std() {
    for text in ["", "\n", "a", "a\n", "a\r\nb\n", "a\r", "\r\n", "a\n\nb", "a\rb\r\r\nc", "\n\n\nx"] {
        let expected: Vec<String> = text.lines().map(|s| s.to_string()).collect();
        assert_eq!(split_lines(text), expected, "{:?}", text);
    }
}

#[test]
fn joining_the_first_of_a_list() {
    let list = strings(&["a", "", "c", "d"]);
    assert_eq!(join_first(&list, 0, "\n"), "");
    assert_eq!(join_first(&list, 1, "\n"), "a");
    assert_eq!(join_first(&list, 3, "--"), "a----c");
    assert_eq!(join_first(&list, 4, ":"), list.join(":"));
}

#[test]
fn decimals_agree_with_std() {
    for n in [0, 1, 9, 10, 11, 99, 100, 127, 128, 255, 1000, -1, -9, -10, i32::MAX, i32::MIN] {
        assert_eq!(decimal_string(n), n.to_string());
    }
}

#[test]
fn splitting_undoes_joining() {
    for list in [vec!["a"], vec![""], vec!["", ""], vec!["/usr/bin", "", "/bin"]] {
        let list = strings(&list);
        assert_eq!(split_at_char(&join_first(&list, list.len(), ":"), ':'), list);
    }
}
