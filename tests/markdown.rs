use anki_multitool::card::Card;
use anki_multitool::commit::FileCommitBuffer;
use anki_multitool::error::DeckError;
use anki_multitool::markdown::{
    is_blank, line_outcome, FromMarkdownDeck, LineEvent, MarkdownImport, MarkdownListReader,
    MarkdownListStream,
    ParserState,
    ToMarkdownDeck, TypeList,
};

fn lines(text: &str) -> Vec<String> {
    text.lines().map(|l| l.to_string()).collect()
}

fn stream(text: &str) -> MarkdownListStream {
    MarkdownListStream::new(lines(text))
}

fn card(front: &str, back: &str) -> Card {
    Card { front: front.to_string(), back: back.to_string() }
}

fn five_texts() -> Vec<String> {
    vec![
        "Q - A".to_string(),
        "Which color? - Blue".to_string(),
        "ABCD? - Yes, EFGH".to_string(),
        "2+2 ? - 4".to_string(),
        "pi? - It's definitely 3.14...".to_string(),
    ]
}

fn commit_all(buffer: &mut FileCommitBuffer) -> Vec<String> {
    let mut out = Vec::new();
    while let Some(line) = buffer.pending() {
        let card = Card::from_str(line).expect("staged line is a card");
        out.push(card.to_string());
        buffer.mark_committed();
    }
    out
}

#[test]
pub fn test_markdown_stream_ordered_list() {
    let mut s = stream(
        r#"1. Q - A
2. Which color? - Blue
3. ABCD? - Yes, EFGH
4. 2+2 ? - 4
5. pi? - It's definitely 3.14...
"#,
    );
    assert_eq!(s.collect_items().expect("failed to collect stream"), five_texts());
}

#[test]
pub fn test_markdown_stream_unordered_list() {
    let mut s = stream(
        r#"- Q - A
- Which color? - Blue
- ABCD? - Yes, EFGH
- 2+2 ? - 4
- pi? - It's definitely 3.14...
"#,
    );
    assert_eq!(s.collect_items().expect("failed to collect stream"), five_texts());
}

#[test]
pub fn test_failed_markdown_stream_ordered_list() {
    let mut s = stream(
        r#"1. Q - A
2. Which color? - Blue
- ABCD? - Yes, EFGH
3. 2+2 ? - 4
4. pi? - It's definitely 3.14...
"#,
    );
    assert!(s.collect_items().is_err());

    s = stream(
        r#"     1. Q - A
2. Which color? - Blue
3. ABCD? - Yes, EFGH
4. 2+2 ? - 4
5. pi? - It's definitely 3.14...
"#,
    );
    assert!(s.collect_items().is_err());

    s = stream(
        r#"1. Q - A
2. Which color? - Blue
    - ABCD? - Yes, EFGH
    - ABCD? - Yes, EFGH
    - ABCD? - Yes, EFGH
3. 2+2 ? - 4
4. pi? - It's definitely 3.14...
"#,
    );
    assert!(s.collect_items().is_err());

    s = stream(
        r#"# TITLE
1. Q - A
2. Which color? - Blue
3. ABCD? - Yes, EFGH
4. 2+2 ? - 4
5. pi? - It's definitely 3.14...
"#,
    );
    assert!(s.collect_items().is_err());
}

#[test]
pub fn test_failed_markdown_stream_unordered_list() {
    let mut s = stream(
        r#"- Q - A
- Which color? - Blue
3. ABCD? - Yes, EFGH
- 2+2 ? - 4
- pi? - It's definitely 3.14...
"#,
    );
    assert!(s.collect_items().is_err());

    s = stream(
        r#"     - Q - A
- Which color? - Blue
- ABCD? - Yes, EFGH
- 2+2 ? - 4
- pi? - It's definitely 3.14...
"#,
    );
    assert!(s.collect_items().is_err());

    s = stream(
        r#"- Q - A
- Which color? - Blue
    1. ABCD? - Yes, EFGH
    2. ABCD? - Yes, EFGH
    3. ABCD? - Yes, EFGH
- 2+2 ? - 4
- pi? - It's definitely 3.14...
"#,
    );
    assert!(s.collect_items().is_err());

    s = stream(
        r#"# TITLE
- Q - A
- Which color? - Blue
- ABCD? - Yes, EFGH
- 2+2 ? - 4
- pi? - It's definitely 3.14...
"#,
    );
    assert!(s.collect_items().is_err());
}

#[test]
fn three_ordered_items_in_order() {
    let mut s = stream("1. Q - A\n2. W - B\n3. E - C\n");
    assert_eq!(s.next(), Some(Ok("Q - A".to_string())));
    assert_eq!(s.next(), Some(Ok("W - B".to_string())));
    assert_eq!(s.next(), Some(Ok("E - C".to_string())));
    assert_eq!(s.next(), None);
}

#[test]
fn mixed_list_kinds_fail() {
    assert_eq!(stream("1. Q - A\n- W - B\n").collect_items(), Err(DeckError::MixedList));
    assert_eq!(stream("- Q - A\n1. W - B\n").collect_items(), Err(DeckError::MixedList));
    let mut s = stream("1. Q - A\n- W - B\n3. E - C\n");
    assert_eq!(s.next(), Some(Ok("Q - A".to_string())));
    assert_eq!(s.next(), Some(Err(DeckError::MixedList)));
    assert_eq!(s.next(), None);
    let deck = FromMarkdownDeck::new("deck.md").unwrap();
    assert_eq!(deck.prepare(lines("1. Q - A\n- W - B\n")).err(), Some(DeckError::MixedList));
}

#[test]
fn blank_lines_are_skipped() {
    let mut s = stream("\n1. Q1 - A1\n\n2. Q2 - A2\n   \t\n3. Q3 - Q3\n        ");
    assert_eq!(
        s.collect_items(),
        Ok(vec!["Q1 - A1".to_string(), "Q2 - A2".to_string(), "Q3 - Q3".to_string()])
    );
    assert_eq!(stream("").collect_items(), Ok(vec![]));
    assert!(is_blank(" \t\u{3000}"));
    assert!(!is_blank(" x "));
}

#[test]
fn other_markup_is_unsupported() {
    assert_eq!(stream("Just text\n").collect_items(), Err(DeckError::UnsupportedMarkdown));
    assert_eq!(stream("- *Q* - A\n").collect_items(), Err(DeckError::UnsupportedMarkdown));
    assert_eq!(stream("- `Q` - A\n").collect_items(), Err(DeckError::UnsupportedMarkdown));
}

#[test]
fn line_outcomes_from_events() {
    let item = vec![
        LineEvent::OrderedList,
        LineEvent::ItemStart,
        LineEvent::Text("Q ".to_string()),
        LineEvent::Text("- A".to_string()),
        LineEvent::ItemEnd,
        LineEvent::Other,
    ];
    assert_eq!(line_outcome(TypeList::Undefined, &item), (TypeList::Ordered, Some(Ok("Q - A".to_string()))));
    assert_eq!(line_outcome(TypeList::Ordered, &item), (TypeList::Ordered, Some(Ok("Q - A".to_string()))));
    assert_eq!(line_outcome(TypeList::Unordered, &item), (TypeList::Unordered, Some(Err(DeckError::MixedList))));
    let nested = vec![LineEvent::UnorderedList, LineEvent::ItemStart, LineEvent::UnorderedList];
    assert_eq!(
        line_outcome(TypeList::Undefined, &nested),
        (TypeList::Unordered, Some(Err(DeckError::UnsupportedMarkdown)))
    );
    let text_outside = vec![LineEvent::Text("x".to_string())];
    assert_eq!(line_outcome(TypeList::Undefined, &text_outside), (TypeList::Undefined, Some(Err(DeckError::UnsupportedMarkdown))));
    assert_eq!(line_outcome(TypeList::Ordered, &vec![]), (TypeList::Ordered, None));
    assert_eq!(
        line_outcome(TypeList::Undefined, &vec![LineEvent::UnorderedList, LineEvent::ItemStart]),
        (TypeList::Unordered, None)
    );
}

#[test]
fn list_state_queries() {
    assert!(TypeList::Ordered.is_ordered());
    assert!(!TypeList::Undefined.is_ordered());
    assert!(TypeList::Unordered.is_unordered());
    assert!(ParserState::InList.in_list());
    assert!(!ParserState::InListItem.in_list());
    assert!(ParserState::InListItem.in_list_item());
    assert!(!ParserState::Undefined.in_list_item());
}

#[test]
pub fn test_from_markdown_deck_ordered_list() {
    let deck = FromMarkdownDeck::new("deck.md").expect("failed to create FromMarkdownDeck");
    let mut buffer = deck
        .prepare(lines(
            r#"1. Q - A
2. Which color? - Blue
3. ABCD? - Yes, EFGH
4. 2+2 ? - 4
5. pi? - It's definitely 3.14..."#,
        ))
        .expect("failed to process cards");
    assert_eq!(commit_all(&mut buffer), five_texts());
}

#[test]
pub fn test_from_markdown_deck_unordered_list() {
    let deck = FromMarkdownDeck::new("deck.md").expect("failed to create FromMarkdownDeck");
    let mut buffer = deck
        .prepare(lines(
            r#"- Q - A
- Which color? - Blue
- ABCD? - Yes, EFGH
- 2+2 ? - 4
- pi? - It's definitely 3.14..."#,
        ))
        .expect("failed to process cards");
    assert_eq!(commit_all(&mut buffer), five_texts());
}

#[test]
pub fn test_failed_from_markdown_deck_ordered_list() {
    let deck = FromMarkdownDeck::new("deck.md").expect("failed to create FromMarkdownDeck");
    assert!(deck
        .prepare(lines(
            r#"1. Q - A
2. Which color? - Blue
3 ABCD? - Yes, EFGH
4. 2+2 ? - 4
5. pi? - It's definitely 3.14..."#,
        ))
        .is_err());
}

#[test]
pub fn test_failed_from_markdown_deck_unordered_list() {
    let deck = FromMarkdownDeck::new("deck.md").expect("failed to create FromMarkdownDeck");
    assert!(deck
        .prepare(lines(
            r#"- Q - A
- Which color? - Blue
- ABCD? - Yes, EFGH
  2+2 ? - 4
- pi? - It's definitely 3.14..."#,
        ))
        .is_err());
}

#[test]
fn item_that_is_not_a_card_stages_nothing() {
    let deck = FromMarkdownDeck::new("deck.md").unwrap();
    assert_eq!(
        deck.prepare(lines("1. Q - A\n2. no dash\n3. E - C\n")).err(),
        Some(DeckError::InvalidRecord("no dash".to_string()))
    );
}

#[test]
pub fn test_to_markdown_deck() {
    let cards = vec![
        Card::from_str("Q - A").expect("failed to create card"),
        Card::from_str("Which color? - Blue").expect("failed to create card"),
        Card::from_str("ABCD? - Yes, EFGH").expect("failed to create card"),
        Card::from_str("2+2 ? - 4").expect("failed to create card"),
        Card::from_str("pi? - It's definitely 3.14...").expect("failed to create card"),
    ];
    let deck = ToMarkdownDeck::new("test_deck");
    assert_eq!(deck.path, "test_deck.md");
    assert_eq!(
        deck.write(false, &cards).expect("failed to write card to Markdown file"),
        r#"1. Q - A
2. Which color? - Blue
3. ABCD? - Yes, EFGH
4. 2+2 ? - 4
5. pi? - It's definitely 3.14...
"#
    )
}

#[test]
pub fn test_failed_to_markdown_deck() {
    let deck = ToMarkdownDeck::new("failed_test_deck");
    assert!(deck.write(true, &vec![Card::default()]).is_err());
}

#[test]
fn markdown_export_numbers_lines_in_order() {
    let cards: Vec<Card> = (0..12).map(|i| card(&format!("Q{}", 12 - i), "A")).collect();
    let text = ToMarkdownDeck::new("d").write(false, &cards).unwrap();
    let got: Vec<&str> = text.lines().collect();
    assert_eq!(got.len(), 12);
    for (k, line) in got.iter().enumerate() {
        assert_eq!(*line, format!("{}. Q{} - A", k + 1, 12 - k));
    }
    assert_eq!(ToMarkdownDeck::new("d").write(false, &vec![]), Ok(String::new()));
}

#[test]
fn markdown_export_refusals() {
    let deck = ToMarkdownDeck::new("d");
    assert_eq!(deck.write(true, &vec![card("Q", "A")]), Err(DeckError::DestinationExists("d.md".to_string())));
    assert_eq!(
        deck.write(false, &vec![card("Q", "A"), card("Q", "")]),
        Err(DeckError::InvalidRecord("Q - ".to_string()))
    );
}

#[test]
fn markdown_round_trip_through_export() {
    let cards = vec![card("Q", "A"), card("W", "B"), card("E", "C")];
    let text = ToMarkdownDeck::new("d").write(false, &cards).unwrap();
    let mut buffer = FromMarkdownDeck::new("d.md").unwrap().prepare(lines(&text)).unwrap();
    assert_eq!(commit_all(&mut buffer), vec!["Q - A", "W - B", "E - C"]);
}

#[test]
fn reader_keeps_list_kind_across_lines() {
    let mut reader = MarkdownListReader::new();
    assert_eq!(reader.read_line("   "), None);
    assert_eq!(reader.read_line("- Q - A"), Some(Ok("Q - A".to_string())));
    assert_eq!(reader.read_line("1. W - B"), Some(Err(DeckError::MixedList)));
    assert_eq!(reader.read_line("- E - C"), None);
}

fn import_lines(text: &str) -> Result<Vec<String>, DeckError> {
    let mut import = MarkdownImport::new();
    for line in text.lines() {
        import.read_line(line)?;
    }
    let mut buffer = import.finish();
    Ok(commit_all(&mut buffer))
}

#[test]
fn line_fed_import_stages_each_item() {
    assert_eq!(import_lines("1. Q - A\n\n2. W - B\n"), Ok(vec!["Q - A".to_string(), "W - B".to_string()]));
    assert_eq!(import_lines(""), Ok(vec![]));
    assert_eq!(import_lines("1. Q - A\n- W - B\n"), Err(DeckError::MixedList));
    assert_eq!(import_lines("# T\n"), Err(DeckError::UnsupportedMarkdown));
    assert_eq!(import_lines("- Q -\n"), Err(DeckError::InvalidRecord("Q -".to_string())));
}
