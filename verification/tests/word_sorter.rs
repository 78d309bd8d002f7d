use ccb_labs::word_sorter::{extract_words, join_with, on_socket_message, sorted_word_lines, SocketAction, SocketMessage};

#[test]
fn words_are_cleaned_deduplicated_and_sorted() {
    let words = extract_words("Hello, world! hello (World) zebra apple".to_string());
    assert_eq!(words, vec!["apple", "hello", "world", "zebra"]);
}

#[test]
fn pieces_without_letters_are_dropped() {
    let words = extract_words("  123 -- !!! a1b  ".to_string());
    assert_eq!(words, vec!["a1b"]);
}

#[test]
fn empty_text_gives_no_words() {
    assert!(extract_words(String::new()).is_empty());
    assert!(extract_words(" \t\n ".to_string()).is_empty());
}

#[test]
fn unicode_white_space_and_letters() {
    let words = extract_words("Éclair\u{3000}ÇA\ttest\u{a0}éclair".to_string());
    assert_eq!(words, vec!["test", "ça", "éclair"]);
}

#[test]
fn shorter_prefix_sorts_first() {
    let words = extract_words("carts car cart".to_string());
    assert_eq!(words, vec!["car", "cart", "carts"]);
}

#[test]
fn repeating_the_text_gives_the_same_list() {
    let t = "b a c a".to_string();
    let once = extract_words(t.clone());
    let twice = extract_words(format!("{} {}", t, t));
    assert_eq!(once, twice);
}

#[test]
fn join_puts_separators_between() {
    let list = vec!["a".to_string(), "b".to_string(), "c".to_string()];
    assert_eq!(join_with(&list, "\n"), "a\nb\nc");
    assert_eq!(join_with(&Vec::new(), "\n"), "");
    assert_eq!(join_with(&vec!["x".to_string()], ", "), "x");
}

#[test]
fn sorted_lines_of_a_text() {
    assert_eq!(sorted_word_lines("Dog cat, dog.".to_string()), "cat\ndog");
}

#[test]
fn socket_answers_text_and_closes_on_close() {
    match on_socket_message(SocketMessage::Text("b A".to_string())) {
        SocketAction::Reply(r) => assert_eq!(r, "a\nb"),
        other => panic!("unexpected {:?}", other),
    }
    assert!(matches!(on_socket_message(SocketMessage::Close(None)), SocketAction::Close));
    assert!(matches!(
        on_socket_message(SocketMessage::Close(Some((1000, "bye".to_string())))),
        SocketAction::Close
    ));
    assert!(matches!(on_socket_message(SocketMessage::Binary(vec![1, 2])), SocketAction::Ignore));
    assert!(matches!(on_socket_message(SocketMessage::Ping(vec![])), SocketAction::Ignore));
    assert!(matches!(on_socket_message(SocketMessage::Pong(vec![])), SocketAction::Ignore));
}

#[test]
fn white_space_agrees_with_std() {
    for n in 0u32..=0x10FFFF {
        if let Some(c) = char::from_u32(n) {
            assert_eq!(ccb_labs::text::char_is_whitespace(c), c.is_whitespace(), "U+{:04X}", n);
        }
    }
}

#[test]
fn words_of_two_texts_are_the_union() {
    let a = "Pear, apple! kiwi".to_string();
    let b = "kiwi banana APPLE".to_string();
    let mut union: Vec<String> = extract_words(a.clone());
    for w in extract_words(b.clone()) {
        if !union.contains(&w) {
            union.push(w);
        }
    }
    union.sort();
    assert_eq!(extract_words(format!("{} {}", a, b)), union);
}

#[test]
fn word_list_is_a_fixed_point_and_ignores_ascii_case() {
    let t = "The quick, brown FOX; the lazy dog... fox!".to_string();
    let w = extract_words(t.clone());
    assert_eq!(extract_words(w.join("\n")), w);
    assert_eq!(extract_words(w.join(" ")), w);
    assert_eq!(extract_words(t.to_ascii_uppercase()), w);
    assert_eq!(extract_words(t.to_ascii_lowercase()), w);
}

#[test]
fn letters_and_lowercase_agree_with_std() {
    for n in 0u32..=0x10FFFF {
        if let Some(c) = char::from_u32(n) {
            assert_eq!(ccb_labs::text::is_letter(c), c.is_alphabetic(), "U+{:04X}", n);
        }
    }
    let ascii: String = (0u8..128).map(|b| b as char).collect();
    assert_eq!(ccb_labs::text::to_lower(&ascii), ascii.to_lowercase());
    for s in ["HeLLo", "ΟΔΥΣΣΕΥΣ", "Straße ÅNGSTRÖM", "İstanbul", ""] {
        assert_eq!(ccb_labs::text::to_lower(s), s.to_lowercase());
    }
}

#[test]
fn sort_unique_words_sorts_and_deduplicates() {
    let words: Vec<String> = ["pear", "apple", "pear", "fig", "apple"].iter().map(|s| s.to_string()).collect();
    assert_eq!(ccb_labs::word_sorter::sort_unique_words(&words), vec!["apple", "fig", "pear"]);
    assert!(ccb_labs::word_sorter::sort_unique_words(&Vec::new()).is_empty());
}
