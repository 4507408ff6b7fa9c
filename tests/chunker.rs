use omnibrowser_core::chunker::{chunk_text, CHUNK_SIZE};

#[test]
fn test_chunking_small_text() {
    let text = "This is a short text.";
    let chunks = chunk_text(text);
    assert_eq!(chunks.len(), 1);
    assert_eq!(chunks[0].text, text);
}

#[test]
fn test_chunking_large_text() {
    let text = "word ".repeat(1000);
    let chunks = chunk_text(&text);
    assert!(chunks.len() > 1);
    assert_eq!(chunks[0].index, 0);
}

#[test]
fn test_chunking_empty_text() {
    let text = "";
    let chunks = chunk_text(text);
    assert_eq!(chunks.len(), 1);
}

#[test]
fn large_text_windows_overlap_by_forty_words() {
    let text = "word ".repeat(1000);
    let chunks = chunk_text(&text);
    assert_eq!(chunks.len(), 2);
    assert_eq!(chunks[0].text, vec!["word"; 700].join(" "));
    assert_eq!(chunks[1].text, vec!["word"; 340].join(" "));
    assert_eq!(chunks[1].index, 1);
    assert_eq!(chunks[0].total, 2);
    assert_eq!(chunks[1].total, 2);
}

#[test]
fn text_at_the_size_limit_stays_whole() {
    let text = "a".repeat(CHUNK_SIZE);
    let chunks = chunk_text(&text);
    assert_eq!(chunks.len(), 1);
    assert_eq!(chunks[0].text, text);
    assert_eq!(chunks[0].total, 1);
}

#[test]
fn long_blank_text_gives_no_chunks() {
    let text = " ".repeat(CHUNK_SIZE + 1);
    assert_eq!(chunk_text(&text).len(), 0);
}

#[test]
fn words_are_rejoined_with_single_spaces() {
    let mut text = String::from("alpha\n\tbeta   gamma ");
    text.push_str(&" ".repeat(CHUNK_SIZE));
    let chunks = chunk_text(&text);
    assert_eq!(chunks.len(), 1);
    assert_eq!(chunks[0].text, "alpha beta gamma");
}

#[test]
fn test_chunk_by_sentences() {
    let text = "First sentence. Second sentence. Third sentence.";
    let chunks = omnibrowser_core::chunker::chunk_by_sentences(text, 20);
    assert!(chunks.len() > 1);
}

#[test]
fn sentences_pack_up_to_the_limit() {
    let text = "First sentence. Second sentence. Third sentence.";
    let chunks = omnibrowser_core::chunker::chunk_by_sentences(text, 20);
    let texts: Vec<&str> = chunks.iter().map(|c| c.text.as_str()).collect();
    assert_eq!(texts, vec!["First sentence.", "Second sentence.", "Third sentence."]);
    assert_eq!(chunks[2].index, 2);
    assert_eq!(chunks[2].total, 3);
    let packed = omnibrowser_core::chunker::chunk_by_sentences(text, 40);
    let texts: Vec<&str> = packed.iter().map(|c| c.text.as_str()).collect();
    assert_eq!(texts, vec!["First sentence. Second sentence.", "Third sentence."]);
}

#[test]
fn text_without_sentences_stays_whole() {
    let text = "  ... !!! ??? ";
    let chunks = omnibrowser_core::chunker::chunk_by_sentences(text, 3);
    assert_eq!(chunks.len(), 1);
    assert_eq!(chunks[0].text, text);
}
