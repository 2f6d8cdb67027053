use cephalon::add;
use cephalon::documents::document::split_text_into_chunks;

#[test]
fn lib_it_works() {
    let result = add(2, 2);
    assert_eq!(result, 4);
}

#[test]
fn test_it_works() {
    let result = add(2, 2);
    assert_eq!(result, 4);
}

#[test]
fn lib_split_text_into_chunks_test() {
    let result = split_text_into_chunks("Split this test please!!".to_string(), 5).unwrap();
    assert_eq!(result, vec!["Split", " this", " test", " plea", "se!!"]);
}

#[test]
fn test_split_text_into_chunks_test() {
    let result = split_text_into_chunks("Split this test please!!".to_string(), 5).unwrap();
    assert_eq!(result, vec!["Split", " this", " test", " plea", "se!!"]);
}

#[test]
fn split_text_into_chunks_test_2() {
    let result = split_text_into_chunks("hello, world!".to_string(), 45).unwrap();
    assert_eq!(result, vec!["hello, world!"]);
}

#[test]
fn split_doc_example() {
    let split = split_text_into_chunks(String::from("Split this string!"), 5).unwrap();
    assert_eq!(split, vec!["Split", " this", " stri", "ng!"]);
}

#[test]
fn split_empty_text_has_no_chunk() {
    let split = split_text_into_chunks(String::new(), 3).unwrap();
    assert!(split.is_empty());
}

#[test]
fn split_exact_multiple() {
    let split = split_text_into_chunks("abcdef".to_string(), 3).unwrap();
    assert_eq!(split, vec!["abc", "def"]);
}

#[test]
fn split_cuts_bytes_not_characters() {
    // "é" takes two bytes; a cut between them leaves U+FFFD on both sides.
    let split = split_text_into_chunks("h\u{e9}llo".to_string(), 2).unwrap();
    assert_eq!(split, vec!["h\u{fffd}", "\u{fffd}l", "lo"]);
}

#[test]
fn split_keeps_whole_characters() {
    let split = split_text_into_chunks("\u{e9}\u{e9}\u{e9}".to_string(), 2).unwrap();
    assert_eq!(split, vec!["\u{e9}", "\u{e9}", "\u{e9}"]);
}

#[test]
fn ascii_chunks_rejoin_to_the_text() {
    let text = "The quick brown fox jumps over the lazy dog".to_string();
    let split = split_text_into_chunks(text.clone(), 7).unwrap();
    assert_eq!(split.len(), 7);
    for chunk in &split[..split.len() - 1] {
        assert_eq!(chunk.len(), 7);
    }
    assert_eq!(split.concat(), text);
}

#[test]
fn chunk_of_256_bytes() {
    let text = "a".repeat(600);
    let split = split_text_into_chunks(text, 256).unwrap();
    assert_eq!(split.len(), 3);
    assert_eq!(split[0].len(), 256);
    assert_eq!(split[1].len(), 256);
    assert_eq!(split[2].len(), 88);
}
