use order_book::deploy::{contract_id, overwrite_tail, separates_words};

fn by_std(line: &str) -> Option<&str> {
    if line.contains("::") || line.contains("      ") {
        line.split_whitespace().last()
    } else {
        None
    }
}

#[test]
fn overwrite_tail_replaces_the_last_bytes() {
    let mut content = b"var limit: int = 42;".to_vec();
    assert!(overwrite_tail(&mut content, b"10;", 3));
    assert_eq!(content, b"var limit: int = 10;".to_vec());
}

#[test]
fn overwrite_tail_may_change_the_length() {
    let mut content = b"abcdef".to_vec();
    assert!(overwrite_tail(&mut content, b"0123456789", 2));
    assert_eq!(content, b"abcd0123456789".to_vec());
    assert!(overwrite_tail(&mut content, b"", 10));
    assert_eq!(content, b"abcd".to_vec());
    assert!(overwrite_tail(&mut content, b"xy", 0));
    assert_eq!(content, b"abcdxy".to_vec());
}

#[test]
fn overwrite_tail_of_the_whole_content() {
    let mut content = b"abc".to_vec();
    assert!(overwrite_tail(&mut content, b"10;", 3));
    assert_eq!(content, b"10;".to_vec());
    let mut empty: Vec<u8> = Vec::new();
    assert!(overwrite_tail(&mut empty, b"10;", 0));
    assert_eq!(empty, b"10;".to_vec());
}

#[test]
fn overwrite_tail_leaves_short_content() {
    let mut content = b"ab".to_vec();
    assert!(!overwrite_tail(&mut content, b"10;", 3));
    assert_eq!(content, b"ab".to_vec());
    let mut empty: Vec<u8> = Vec::new();
    assert!(!overwrite_tail(&mut empty, b"10;", 1));
    assert!(empty.is_empty());
}

#[test]
fn white_space_is_the_unicode_property() {
    for code in 0..=0x10ffffu32 {
        if let Some(c) = char::from_u32(code) {
            assert_eq!(separates_words(c), c.is_whitespace(), "U+{:04X}", code);
        }
    }
}

#[test]
fn contract_id_is_the_last_word_of_a_naming_line() {
    assert_eq!(contract_id("contract order::Bid  0xABCD"), Some("0xABCD"));
    assert_eq!(contract_id("      predicate 1F2E"), Some("1F2E"));
    assert_eq!(contract_id("order::Bid"), Some("order::Bid"));
    assert_eq!(contract_id("a::b \t "), Some("a::b"));
    assert_eq!(contract_id("::"), Some("::"));
    assert_eq!(contract_id(" x      y\r"), Some("y"));
}

#[test]
fn contract_id_skips_other_lines() {
    assert_eq!(contract_id(""), None);
    assert_eq!(contract_id("Compiling order"), None);
    assert_eq!(contract_id("a:b : c"), None);
    assert_eq!(contract_id("five     spaces"), None);
    assert_eq!(contract_id("tab\t\t\t\t\t\tseparated"), None);
}

#[test]
fn contract_id_of_a_line_without_a_word() {
    assert_eq!(contract_id("      "), None);
    assert_eq!(contract_id("        \t\r"), None);
}

#[test]
fn contract_id_counts_characters_not_bytes() {
    assert_eq!(contract_id("é::ü ñandú"), Some("ñandú"));
    assert_eq!(contract_id("名前::値\u{3000}契約\u{2003}"), Some("契約"));
    assert_eq!(contract_id("a\u{a0}b::c"), Some("b::c"));
    assert_eq!(contract_id("x\u{200b}y      z\u{200b}w"), Some("z\u{200b}w"));
}

#[test]
fn contract_id_agrees_with_splitting_by_white_space() {
    let pieces = ["", " ", "  ", "      ", ":", "::", "a", "bc", "\t", "\r", "\u{2028}", "é", ":::", "0x1f"];
    let mut seed: u32 = 12345;
    for _ in 0..20000 {
        let mut line = String::new();
        for _ in 0..6 {
            seed = seed.wrapping_mul(1664525).wrapping_add(1013904223);
            line.push_str(pieces[(seed >> 16) as usize % pieces.len()]);
        }
        assert_eq!(contract_id(&line), by_std(&line), "{:?}", line);
    }
}

#[test]
fn contract_ids_of_a_report() {
    let report = "Compiling order\ncontract order            1111\n    order::Bid           2222\r\n\nFinished";
    let ids: Vec<&str> = report.lines().filter_map(contract_id).collect();
    assert_eq!(ids, vec!["1111", "2222"]);
}
