use anki_multitool::card::Card;
use anki_multitool::commit::FileCommitBuffer;
use anki_multitool::error::DeckError;
use anki_multitool::json::{
    card_from_members, decode_card, json_element_text, stage_card, FromJsonDeck, JsonArrayStream,
    JsonImport, JsonScanner, ToJsonDeck,
};

fn card(front: &str, back: &str) -> Card {
    Card { front: front.to_string(), back: back.to_string() }
}

fn stream(text: &str) -> JsonArrayStream {
    JsonArrayStream::new(text.as_bytes().to_vec())
}

fn five_cards() -> Vec<Card> {
    vec![
        card("Q", "A"),
        card("Which color?", "Blue"),
        card("ABCD?", "Yes, EFGH"),
        card("2+2 ?", "4"),
        card("pi?", "It's definitely 3.14..."),
    ]
}

const FIVE_CARDS: &str = r#"[
                {
                    "front": "Q",
                    "back": "A"
                },
                {
                    "front": "Which color?",
                    "back": "Blue"
                },
                {
                    "front": "ABCD?",
                    "back": "Yes, EFGH"
                },
                {
                    "front": "2+2 ?",
                    "back": "4"
                },
                {
                    "front": "pi?",
                    "back": "It's definitely 3.14..."
                }
            ]
"#;

fn commit_all(buffer: &mut FileCommitBuffer) -> Vec<String> {
    let mut out = Vec::new();
    while let Some(line) = buffer.pending() {
        let card = Card::from_str(line).expect("staged line is a card");
        out.push(card.to_string());
        buffer.mark_committed();
    }
    out
}

#[test]
pub fn test_json_array_stream() {
    assert_eq!(
        stream(FIVE_CARDS).collect_cards().expect("failed to collect stream"),
        five_cards()
    );
}

#[test]
pub fn test_failed_json_array_stream() {
    let mut s = stream(
        r#"[
                {
                    "front": "Q,
                    "back": "A"
                }
            ]
"#,
    );
    assert!(s.collect_cards().is_err());

    // Elements are not required to be separated by commas: both are read.
    s = stream(
        r#"[
                {
                    "front": "Q",
                    "back": "A"
                }
                {
                    "front": "Q",
                    "back": "A"
                }
            ]
"#,
    );
    assert_eq!(s.collect_cards(), Ok(vec![card("Q", "A"), card("Q", "A")]));

    s = stream(
        r#"[
                {
                    "front": "Q",
                    "back": ["A"]
                },
                {
                    "front": "Q",
                    "back": "A"
                }
            ]
"#,
    );
    assert!(s.collect_cards().is_err());

    s = stream(
        r#"[
                {
                    "front": "Q",
                    "back": {"A": "A"}
                },
                {
                    "front": "Q",
                    "back": "A"
                }
            ]
"#,
    );
    assert!(s.collect_cards().is_err());

    s = stream(
        r#"[
                {
                    "front": "Q",
                    "back": "A"
                },
                {
                    "front": "Q",
                    "back": "A"
                
            ]
"#,
    );
    assert!(s.collect_cards().is_err());

    s = stream(
        r#"[
                {
                    "front": "Q",
                    "back": "A"
                },
                {
                    "front": "Q",
                    "back": "A"
                }
            
"#,
    );
    assert!(s.collect_cards().is_err());
}

#[test]
fn two_records_in_order() {
    let mut s = stream(r#"[{"front":"Q","back":"A"},{"front":"Q2","back":"A2"}]"#);
    assert_eq!(s.next(), Some(Ok(card("Q", "A"))));
    assert_eq!(s.next(), Some(Ok(card("Q2", "A2"))));
    assert_eq!(s.next(), None);
    assert_eq!(s.next(), None);
}

#[test]
fn non_string_value_gives_one_error() {
    let mut s = stream(r#"[{"front":"Q","back":["A"]}]"#);
    assert!(matches!(s.next(), Some(Err(DeckError::InvalidJson(_)))));
    assert_eq!(s.next(), None);
}

#[test]
fn structural_errors() {
    assert_eq!(stream("[ x ]").next(), Some(Err(DeckError::UnexpectedChar(b'x'))));
    assert_eq!(stream("[ {\"front\":\"Q\"").next(), Some(Err(DeckError::UnexpectedEndOfObject)));
    assert_eq!(stream("[ ").next(), Some(Err(DeckError::UnexpectedEndOfArray)));
    let mut s = stream("[ x ]");
    s.next();
    assert_eq!(s.next(), None);
}

#[test]
fn empty_inputs_give_no_cards() {
    assert_eq!(stream("").collect_cards(), Ok(vec![]));
    assert_eq!(stream("  \n").collect_cards(), Ok(vec![]));
    assert_eq!(stream("[]").collect_cards(), Ok(vec![]));
    assert_eq!(stream("[ , ]").collect_cards(), Ok(vec![]));
}

#[test]
fn bytes_around_the_array_are_not_read() {
    let text = "\u{0}\u{0}junk [{\"front\":\"Q\",\"back\":\"A\"}] trailing, {";
    assert_eq!(stream(text).collect_cards(), Ok(vec![card("Q", "A")]));
}

#[test]
fn missing_member_is_named() {
    assert_eq!(stream(r#"[{"back":"A"}]"#).next(), Some(Err(DeckError::MissingField("front".to_string()))));
    assert_eq!(stream(r#"[{"front":"Q"}]"#).next(), Some(Err(DeckError::MissingField("back".to_string()))));
}

#[test]
fn members_give_cards() {
    let members = vec![
        ("extra".to_string(), "x".to_string()),
        ("back".to_string(), "A".to_string()),
        ("front".to_string(), "Q".to_string()),
    ];
    assert_eq!(card_from_members(&members), Ok(card("Q", "A")));
    assert_eq!(
        card_from_members(&vec![("Front".to_string(), "Q".to_string())]),
        Err(DeckError::MissingField("front".to_string()))
    );
}

#[test]
fn decoding_reads_escapes_and_unicode() {
    assert_eq!(
        decode_card(r#"{"front":"say \"hi\"","back":"café ü"}"#.as_bytes()),
        Ok(card("say \"hi\"", "café ü"))
    );
    assert!(matches!(decode_card(b"{\"front\":1}"), Err(DeckError::InvalidJson(_))));
}

#[test]
pub fn test_from_json_deck() {
    let deck = FromJsonDeck::new("deck.json").expect("failed to create FromJsonDeck instance");
    let mut buffer = deck
        .prepare(FIVE_CARDS.as_bytes().to_vec())
        .expect("failed to process cards");
    let lines = commit_all(&mut buffer);
    let mut lines = lines.iter();
    assert_eq!(lines.next().unwrap(), "Q - A");
    assert_eq!(lines.next().unwrap(), "Which color? - Blue");
    assert_eq!(lines.next().unwrap(), "ABCD? - Yes, EFGH");
    assert_eq!(lines.next().unwrap(), "2+2 ? - 4");
    assert_eq!(lines.next().unwrap(), "pi? - It's definitely 3.14...");
    assert!(lines.next().is_none(), "expected no more lines in the file");
}

#[test]
pub fn test_failed_from_json_deck() {
    let text = FIVE_CARDS.replace("\"Yes, EFGH\"", "\"Yes, EFGH ");
    let deck = FromJsonDeck::new("deck.json").expect("failed to create FromJsonDeck instance");
    assert!(deck.prepare(text.into_bytes()).is_err());
}

#[test]
fn malformed_element_stages_nothing() {
    for bad in 0..3 {
        let mut elements = vec![
            r#"{"front":"Q1","back":"A1"}"#.to_string(),
            r#"{"front":"Q2","back":"A2"}"#.to_string(),
            r#"{"front":"Q3","back":"A3"}"#.to_string(),
        ];
        elements[bad] = r#"{"front":"Q","back":"no dash - ok"}"#.replace("\"back\"", "\"bak\"");
        let text = format!("[{}]", elements.join(","));
        let result = FromJsonDeck::new("d.json").unwrap().prepare(text.into_bytes());
        assert_eq!(result.err(), Some(DeckError::MissingField("back".to_string())));
    }
    let deck = FromJsonDeck::new("d.json").unwrap();
    let invalid = r#"[{"front":"Q1","back":"A1"},{"front":"","back":"A2"}]"#;
    assert_eq!(deck.prepare(invalid.as_bytes().to_vec()).err(), Some(DeckError::InvalidRecord(" - A2".to_string())));
}

#[test]
pub fn test_to_json_deck() {
    let deck = ToJsonDeck::new("test_deck");
    assert_eq!(deck.path, "test_deck.json");
    let text = deck.write(false, &five_cards()).expect("failed to write cards to JSON file");
    assert_eq!(
        serde_json::from_str::<serde_json::Value>(text.as_str()).expect("failed to parse JSON"),
        serde_json::from_str::<serde_json::Value>(
            r#"[
                {"front": "Q", "back": "A"},
                {"front": "Which color?", "back": "Blue"},
                {"front": "ABCD?", "back": "Yes, EFGH"},
                {"front": "2+2 ?", "back": "4"},
                {"front": "pi?", "back": "It's definitely 3.14..."}
            ]"#
        )
        .expect("failed to parse expected JSON")
    );
}

#[test]
pub fn test_failed_to_json_deck() {
    let deck = ToJsonDeck::new("failed_test_deck");
    assert!(deck.write(true, &vec![]).is_err());
}

#[test]
fn json_export_text_is_exact() {
    let deck = ToJsonDeck::new("d");
    assert_eq!(deck.write(false, &vec![]), Ok("[]".to_string()));
    assert_eq!(
        deck.write(false, &vec![card("Q", "A"), card("say \"hi\"", "a\\b")]),
        Ok(r#"[{"front":"Q","back":"A"},{"front":"say \"hi\"","back":"a\\b"}]"#.to_string())
    );
    assert_eq!(json_element_text("\"x\"", "\"y\""), r#"{"front":"x","back":"y"}"#);
}

#[test]
fn json_export_refuses_existing_destination_and_bad_cards() {
    let deck = ToJsonDeck::new("d");
    assert_eq!(deck.write(true, &five_cards()), Err(DeckError::DestinationExists("d.json".to_string())));
    assert_eq!(
        deck.write(false, &vec![card("Q", "A"), card("", "x")]),
        Err(DeckError::InvalidRecord(" - x".to_string()))
    );
    // A dash in the front moves text to the back, as reading the text form does.
    assert_eq!(
        deck.write(false, &vec![card("a-b", "c")]),
        Ok(r#"[{"front":"a","back":"b - c"}]"#.to_string())
    );
}

#[test]
fn scanner_reads_one_byte_at_a_time() {
    let mut scanner = JsonScanner::new();
    let mut cards = Vec::new();
    for b in br#" [ {"front":"Q","back":"A"} , {"front":"W","back":"B"} ] "#.iter() {
        if scanner.is_done() {
            break;
        }
        if let Some(item) = scanner.feed(*b) {
            cards.push(item.unwrap());
        }
    }
    assert!(scanner.is_done());
    assert_eq!(scanner.finish(), None);
    assert_eq!(cards, vec![card("Q", "A"), card("W", "B")]);

    let mut open = JsonScanner::new();
    for b in b"[{\"front\"" {
        assert_eq!(open.feed(*b), None);
    }
    assert_eq!(open.finish(), Some(Err(DeckError::UnexpectedEndOfObject)));
    assert_eq!(open.finish(), None);
}

#[test]
fn staging_cards_one_at_a_time() {
    let mut buffer = FileCommitBuffer::new();
    assert_eq!(stage_card(&mut buffer, Ok(card("Q", "A"))), Ok(()));
    assert_eq!(buffer.lines(), &vec!["Q - A".to_string()]);
    assert_eq!(stage_card(&mut buffer, Ok(card("", "A"))), Err(DeckError::InvalidRecord(" - A".to_string())));
    assert!(buffer.pending().is_none());

    let mut other = FileCommitBuffer::new();
    assert_eq!(stage_card(&mut other, Err(DeckError::UnexpectedEndOfArray)), Err(DeckError::UnexpectedEndOfArray));
    assert_eq!(other.phase(), anki_multitool::commit::CommitPhase::Failed);
}

#[test]
fn json_export_of_five_cards_is_exact() {
    let text = ToJsonDeck::new("test_deck").write(false, &five_cards()).unwrap();
    assert_eq!(
        text,
        r#"[{"front":"Q","back":"A"},{"front":"Which color?","back":"Blue"},{"front":"ABCD?","back":"Yes, EFGH"},{"front":"2+2 ?","back":"4"},{"front":"pi?","back":"It's definitely 3.14..."}]"#
    );
}

#[test]
fn json_export_escapes_control_chars() {
    let text = ToJsonDeck::new("d").write(false, &vec![card("a\tb\u{1}c", "d/é\u{7f}")]).unwrap();
    assert_eq!(text, "[{\"front\":\"a\\tb\\u0001c\",\"back\":\"d/é\u{7f}\"}]");
}

fn import_bytes(bytes: &[u8]) -> Result<Vec<String>, DeckError> {
    let mut import = JsonImport::new();
    for b in bytes {
        if !import.read_byte(*b)? {
            break;
        }
    }
    let mut buffer = import.finish()?;
    Ok(commit_all(&mut buffer))
}

#[test]
fn byte_fed_import_stages_each_element() {
    assert_eq!(import_bytes(FIVE_CARDS.as_bytes()), Ok(five_cards().iter().map(|c| c.to_string()).collect()));
    assert_eq!(import_bytes(b"[] garbage {"), Ok(vec![]));
    assert_eq!(import_bytes(b""), Ok(vec![]));
    assert_eq!(import_bytes(b"[{\"front\":\"Q\",\"back\":\"A\"}"), Err(DeckError::UnexpectedEndOfArray));
    assert_eq!(
        import_bytes(br#"[{"front":"Q","back":"A"},{"front":"","back":"A"}]"#),
        Err(DeckError::InvalidRecord(" - A".to_string()))
    );
    assert_eq!(import_bytes(b"[{\"front\":\"Q\"}]"), Err(DeckError::MissingField("back".to_string())));
}
