use vstd::prelude::*;

use crate::card::{format_record, parse_record, Card};
use crate::commit::{CommitPhase, FileCommitBuffer};
use crate::error::DeckError;
use crate::export::{export_records, first_unreadable, lemma_export_records_len, stage_cards};

verus! {

#[verifier::external_type_specification]
#[verifier::external_body]
pub struct ExJsonError(serde_json::Error);

/// The members of a JSON object whose values are all strings, one per distinct
/// key in key order; `None` for any other text.
pub uninterp spec fn json_string_members(text: Seq<u8>) -> Option<Seq<(Seq<char>, Seq<char>)>>;

/// Relies on `serde_json::from_slice` decoding into a `BTreeMap<String, String>`:
/// it succeeds exactly on the text of one JSON object whose values are all
/// strings, and the map holds its members.
///
/// Elements are flat objects of string members, so a member of any other
/// type, even one whose key is neither `front` nor `back`, makes the element
/// malformed. A repeated key is read as the map reads it: its last value counts.
#[verifier::external_body]
fn decode_string_members(text: &[u8]) -> (r: Result<Vec<(String, String)>, serde_json::Error>)
    ensures
        r is Ok <==> json_string_members(text@) is Some,
        r matches Ok(m) ==> json_string_members(text@) == Some(
            m@.map_values(|p: (String, String)| (p.0@, p.1@)),
        ),
{
    match serde_json::from_slice::<std::collections::BTreeMap<String, String>>(text) {
        Ok(m) => Ok(m.into_iter().collect()),
        Err(e) => Err(e),
    }
}

/// The lower-case hexadecimal digit for `n < 16`.
pub open spec fn hex_digit(n: nat) -> char {
    if n < 10 {
        (48 + n) as char
    } else {
        (87 + n) as char
    }
}

/// How one char stands inside a JSON string literal: `"` and `\` are escaped
/// by a backslash, backspace, tab, line feed, form feed and carriage return by
/// their short escapes, any other char below U+0020 as `\u00` and two hex
/// digits, and every other char as itself.
pub open spec fn json_escape(c: char) -> Seq<char> {
    let u = c as u32;
    if c == '"' {
        seq!['\\', '"']
    } else if c == '\\' {
        seq!['\\', '\\']
    } else if u == 0x08 {
        seq!['\\', 'b']
    } else if u == 0x09 {
        seq!['\\', 't']
    } else if u == 0x0a {
        seq!['\\', 'n']
    } else if u == 0x0c {
        seq!['\\', 'f']
    } else if u == 0x0d {
        seq!['\\', 'r']
    } else if u < 0x20 {
        seq!['\\', 'u', '0', '0', hex_digit((u / 16) as nat), hex_digit((u % 16) as nat)]
    } else {
        seq![c]
    }
}

/// The chars of a text, each escaped for a JSON string literal.
pub open spec fn json_escaped(s: Seq<char>) -> Seq<char>
    decreases s.len(),
{
    if s.len() == 0 {
        Seq::empty()
    } else {
        json_escape(s[0]) + json_escaped(s.drop_first())
    }
}

/// The JSON string literal for a text: its escaped chars between quotes.
pub open spec fn json_quoted(s: Seq<char>) -> Seq<char> {
    seq!['"'] + json_escaped(s) + seq!['"']
}

/// Relies on `serde_json::to_string` on a `str`: the string literal is written
/// into a `Vec`, which cannot fail, with the escapes of `format_escaped_str`.
#[verifier::external_body]
fn quote_json(s: &str) -> (r: Result<String, serde_json::Error>)
    ensures
        r is Ok,
        r is Ok ==> r->Ok_0@ == json_quoted(s@),
{
    serde_json::to_string(s)
}

/// Relies on the `Display` of `serde_json::Error`: its message.
#[verifier::external_body]
fn json_error_text(e: &serde_json::Error) -> (r: String) {
    e.to_string()
}

/// Where the scanner of a JSON array stands.
#[derive(Debug, Clone, Copy, PartialEq, Eq, Structural)]
pub enum JsonState {
    /// Before the opening `[`.
    Outside,
    /// Inside the array, between elements.
    InArray,
    /// Inside an element object, whose bytes are being gathered.
    InObject,
    /// After the closing `]`: nothing more is read.
    Closed,
    /// After a structural error: nothing more is read.
    Failed,
}

/// What the scanner hands out, before decoding.
pub enum ScanFrame {
    /// The bytes of one element object, from its `{` to the first `}` after it.
    Object(Seq<u8>),
    /// A byte that may not stand between elements.
    Unexpected(u8),
    /// The input ended inside the array.
    ArrayNotClosed,
    /// The input ended inside an object.
    ObjectNotClosed,
}

/// The bytes that `u8::is_ascii_whitespace` accepts.
pub open spec fn is_json_space(b: u8) -> bool {
    b == 0x20 || b == 0x09 || b == 0x0a || b == 0x0c || b == 0x0d
}

/// One byte of scanning: the next state, the next object buffer, and what is
/// handed out. Objects are not nested: the first `}` closes the element.
pub open spec fn scan_step(st: JsonState, buf: Seq<u8>, b: u8) -> (JsonState, Seq<u8>, Option<ScanFrame>) {
    match st {
        JsonState::Outside => if b == 0x5b {
            (JsonState::InArray, buf, None)
        } else {
            (JsonState::Outside, buf, None)
        },
        JsonState::InArray => if is_json_space(b) || b == 0x2c {
            (JsonState::InArray, buf, None)
        } else if b == 0x7b {
            (JsonState::InObject, seq![b], None)
        } else if b == 0x5d {
            (JsonState::Closed, buf, None)
        } else {
            (JsonState::Failed, buf, Some(ScanFrame::Unexpected(b)))
        },
        JsonState::InObject => if b == 0x7d {
            (JsonState::InArray, Seq::empty(), Some(ScanFrame::Object(buf.push(b))))
        } else {
            (JsonState::InObject, buf.push(b), None)
        },
        _ => (st, buf, None),
    }
}

/// Everything handed out when scanning `input` from the given state to its end.
pub open spec fn scan_frames(st: JsonState, buf: Seq<u8>, input: Seq<u8>) -> Seq<ScanFrame>
    decreases input.len(),
{
    if st == JsonState::Closed || st == JsonState::Failed {
        Seq::empty()
    } else if input.len() == 0 {
        if st == JsonState::InArray {
            seq![ScanFrame::ArrayNotClosed]
        } else if st == JsonState::InObject {
            seq![ScanFrame::ObjectNotClosed]
        } else {
            Seq::empty()
        }
    } else {
        let (st2, buf2, out) = scan_step(st, buf, input[0]);
        let rest = scan_frames(st2, buf2, input.drop_first());
        match out {
            Some(f) => seq![f] + rest,
            None => rest,
        }
    }
}

/// Everything handed out when scanning a whole input.
pub open spec fn json_frames(input: Seq<u8>) -> Seq<ScanFrame> {
    scan_frames(JsonState::Outside, Seq::empty(), input)
}

pub open spec fn front_key() -> Seq<char> {
    seq!['f', 'r', 'o', 'n', 't']
}

pub open spec fn back_key() -> Seq<char> {
    seq!['b', 'a', 'c', 'k']
}

/// The value of the first member with the key.
pub open spec fn member_value(ms: Seq<(Seq<char>, Seq<char>)>, key: Seq<char>) -> Option<Seq<char>>
    decreases ms.len(),
{
    if ms.len() == 0 {
        None
    } else if ms[0].0 == key {
        Some(ms[0].1)
    } else {
        member_value(ms.drop_first(), key)
    }
}

/// The card that a list of members stands for.
pub open spec fn record_of_members(ms: Seq<(Seq<char>, Seq<char>)>) -> Option<(Seq<char>, Seq<char>)> {
    match (member_value(ms, front_key()), member_value(ms, back_key())) {
        (Some(f), Some(b)) => Some((f, b)),
        _ => None,
    }
}

/// The card that an element object stands for.
pub open spec fn record_of_object(text: Seq<u8>) -> Option<(Seq<char>, Seq<char>)> {
    match json_string_members(text) {
        Some(ms) => record_of_members(ms),
        None => None,
    }
}

/// The card that a frame stands for, if it is a well-formed element.
pub open spec fn frame_record(f: ScanFrame) -> Option<(Seq<char>, Seq<char>)> {
    match f {
        ScanFrame::Object(t) => record_of_object(t),
        _ => None,
    }
}

/// The error for a list of members that lacks a key.
pub open spec fn members_agree(r: Result<Card, DeckError>, ms: Seq<(Seq<char>, Seq<char>)>) -> bool {
    match (member_value(ms, front_key()), member_value(ms, back_key())) {
        (Some(f), Some(b)) => r matches Ok(c) && c@ == (f, b),
        (None, _) => r matches Err(DeckError::MissingField(k)) && k@ == front_key(),
        (_, None) => r matches Err(DeckError::MissingField(k)) && k@ == back_key(),
    }
}

/// `r` is what the stream hands out for the frame.
pub open spec fn item_agrees(r: Result<Card, DeckError>, f: ScanFrame) -> bool {
    match f {
        ScanFrame::Object(t) => match json_string_members(t) {
            Some(ms) => members_agree(r, ms),
            None => r matches Err(DeckError::InvalidJson(_)),
        },
        ScanFrame::Unexpected(b) => r matches Err(DeckError::UnexpectedChar(x)) && x == b,
        ScanFrame::ArrayNotClosed => r matches Err(DeckError::UnexpectedEndOfArray),
        ScanFrame::ObjectNotClosed => r matches Err(DeckError::UnexpectedEndOfObject),
    }
}

/// The cards of all frames, or `None` when one of them is not a well-formed element.
pub open spec fn records_of(frames: Seq<ScanFrame>) -> Option<Seq<(Seq<char>, Seq<char>)>>
    decreases frames.len(),
{
    if frames.len() == 0 {
        Some(Seq::empty())
    } else {
        match (frame_record(frames[0]), records_of(frames.drop_first())) {
            (Some(c), Some(rest)) => Some(seq![c] + rest),
            _ => None,
        }
    }
}

/// The first frame that is not a well-formed element.
pub open spec fn first_bad_frame(frames: Seq<ScanFrame>) -> ScanFrame
    decreases frames.len(),
{
    if frames.len() == 0 {
        ScanFrame::ArrayNotClosed
    } else if frame_record(frames[0]) is None {
        frames[0]
    } else {
        first_bad_frame(frames.drop_first())
    }
}

/// The value of the first member whose key is `key`.
fn find_member(members: &Vec<(String, String)>, key: &String) -> (r: Option<String>)
    ensures
        r matches Some(v) ==> member_value(
            members@.map_values(|p: (String, String)| (p.0@, p.1@)),
            key@,
        ) == Some(v@),
        r is None ==> member_value(members@.map_values(|p: (String, String)| (p.0@, p.1@)), key@)
            is None,
{
    let ghost ms = members@.map_values(|p: (String, String)| (p.0@, p.1@));
    let mut i: usize = 0;
    assert(ms.subrange(0, ms.len() as int) =~= ms);
    while i < members.len()
        invariant
            i <= members@.len() == ms.len(),
            ms == members@.map_values(|p: (String, String)| (p.0@, p.1@)),
            member_value(ms, key@) == member_value(ms.subrange(i as int, ms.len() as int), key@),
        decreases members@.len() - i,
    {
        let ghost rest = ms.subrange(i as int, ms.len() as int);
        assert(rest[0] == ms[i as int]);
        if members[i].0 == *key {
            return Some(members[i].1.clone());
        }
        assert(rest.drop_first() =~= ms.subrange(i + 1, ms.len() as int));
        i = i + 1;
    }
    None
}

/// The card that a list of decoded members stands for: the values of the
/// `front` and `back` members; other members are ignored.
pub fn card_from_members(members: &Vec<(String, String)>) -> (r: Result<Card, DeckError>)
    ensures
        members_agree(r, members@.map_values(|p: (String, String)| (p.0@, p.1@))),
{
    let front_name = "front".to_owned();
    let back_name = "back".to_owned();
    proof {
        reveal_strlit("front");
        reveal_strlit("back");
        assert(front_name@ =~= front_key());
        assert(back_name@ =~= back_key());
    }
    let front = find_member(members, &front_name);
    let back = find_member(members, &back_name);
    match (front, back) {
        (Some(front), Some(back)) => Ok(Card { front, back }),
        (None, _) => Err(DeckError::MissingField(front_name)),
        (_, None) => Err(DeckError::MissingField(back_name)),
    }
}

/// Decodes the bytes of one element object into a card.
pub fn decode_card(text: &[u8]) -> (r: Result<Card, DeckError>)
    ensures
        item_agrees(r, ScanFrame::Object(text@)),
{
    match decode_string_members(text) {
        Ok(members) => card_from_members(&members),
        Err(e) => Err(DeckError::InvalidJson(json_error_text(&e))),
    }
}

proof fn lemma_scan_unfold(st: JsonState, buf: Seq<u8>, input: Seq<u8>)
    requires
        input.len() > 0,
        st != JsonState::Closed,
        st != JsonState::Failed,
    ensures
        scan_frames(st, buf, input) == match scan_step(st, buf, input[0]).2 {
            Some(f) => seq![f] + scan_frames(
                scan_step(st, buf, input[0]).0,
                scan_step(st, buf, input[0]).1,
                input.drop_first(),
            ),
            None => scan_frames(
                scan_step(st, buf, input[0]).0,
                scan_step(st, buf, input[0]).1,
                input.drop_first(),
            ),
        },
{
}

/// The byte-at-a-time scanner of one top-level JSON array of flat objects.
/// Each element object is decoded as soon as its first `}` is read. Bytes
/// before the `[` are skipped, and nothing after the closing `]` is read.
pub struct JsonScanner {
    state: JsonState,
    buf: Vec<u8>,
}

impl JsonScanner {
    pub closed spec fn state_of(&self) -> JsonState {
        self.state
    }

    /// The bytes of the element object being gathered.
    pub closed spec fn gathered(&self) -> Seq<u8> {
        self.buf@
    }

    pub fn new() -> (r: JsonScanner)
        ensures
            r.state_of() == JsonState::Outside,
            r.gathered() == Seq::<u8>::empty(),
    {
        JsonScanner { state: JsonState::Outside, buf: Vec::new() }
    }

    /// Whether the array was closed, or a structural error ended the scan:
    /// no byte more is read then.
    pub fn is_done(&self) -> (r: bool)
        ensures
            r == (self.state_of() == JsonState::Closed || self.state_of() == JsonState::Failed),
    {
        self.state == JsonState::Closed || self.state == JsonState::Failed
    }

    /// Reads one byte: what it hands out, if anything, is decoded.
    pub fn feed(&mut self, b: u8) -> (r: Option<Result<Card, DeckError>>)
        ensures
            final(self).state_of() == scan_step(old(self).state_of(), old(self).gathered(), b).0,
            final(self).gathered() == scan_step(old(self).state_of(), old(self).gathered(), b).1,
            r is None <==> scan_step(old(self).state_of(), old(self).gathered(), b).2 is None,
            r matches Some(item) ==> item_agrees(
                item,
                scan_step(old(self).state_of(), old(self).gathered(), b).2->Some_0,
            ),
    {
        match self.state {
            JsonState::Outside => {
                if b == 0x5b {
                    self.state = JsonState::InArray;
                }
                None
            },
            JsonState::InArray => {
                if b == 0x20 || b == 0x09 || b == 0x0a || b == 0x0c || b == 0x0d || b == 0x2c {
                    None
                } else if b == 0x7b {
                    self.buf = Vec::new();
                    self.buf.push(b);
                    self.state = JsonState::InObject;
                    assert(self.buf@ =~= seq![b]);
                    None
                } else if b == 0x5d {
                    self.state = JsonState::Closed;
                    None
                } else {
                    self.state = JsonState::Failed;
                    Some(Err(DeckError::UnexpectedChar(b)))
                }
            },
            JsonState::InObject => {
                self.buf.push(b);
                if b == 0x7d {
                    let item = decode_card(self.buf.as_slice());
                    self.buf = Vec::new();
                    self.state = JsonState::InArray;
                    assert(self.buf@ =~= Seq::<u8>::empty());
                    Some(item)
                } else {
                    None
                }
            },
            _ => None,
        }
    }

    /// Ends the input: inside the array or inside an object that is an error.
    pub fn finish(&mut self) -> (r: Option<Result<Card, DeckError>>)
        ensures
            r is None <==> scan_frames(old(self).state_of(), old(self).gathered(), Seq::empty()).len()
                == 0,
            r matches Some(item) ==> item_agrees(
                item,
                scan_frames(old(self).state_of(), old(self).gathered(), Seq::empty())[0],
            ),
            scan_frames(final(self).state_of(), final(self).gathered(), Seq::empty()).len() == 0,
    {
        if self.state == JsonState::InArray {
            self.state = JsonState::Failed;
            Some(Err(DeckError::UnexpectedEndOfArray))
        } else if self.state == JsonState::InObject {
            self.state = JsonState::Failed;
            Some(Err(DeckError::UnexpectedEndOfObject))
        } else {
            None
        }
    }
}

/// A lazy reader of the elements of one top-level JSON array of flat objects,
/// held in memory and handed to a [`JsonScanner`] one byte at a time.
pub struct JsonArrayStream {
    source: Vec<u8>,
    pos: usize,
    scanner: JsonScanner,
}

impl JsonArrayStream {
    pub closed spec fn wf(&self) -> bool {
        self.pos <= self.source@.len()
    }

    /// The frames that the stream has still to hand out.
    pub closed spec fn remaining(&self) -> Seq<ScanFrame> {
        scan_frames(
            self.scanner.state_of(),
            self.scanner.gathered(),
            self.source@.subrange(self.pos as int, self.source@.len() as int),
        )
    }

    pub fn new(source: Vec<u8>) -> (r: JsonArrayStream)
        ensures
            r.wf(),
            r.remaining() == json_frames(source@),
    {
        let r = JsonArrayStream { source, pos: 0, scanner: JsonScanner::new() };
        proof {
            assert(r.source@.subrange(0, r.source@.len() as int) =~= r.source@);
        }
        r
    }

    /// The next element: a card, or the error that the element or the array's
    /// structure gives. `None` once the array is closed or the input is used up.
    pub fn next(&mut self) -> (r: Option<Result<Card, DeckError>>)
        requires
            old(self).wf(),
        ensures
            final(self).wf(),
            r is None <==> old(self).remaining().len() == 0,
            r is None ==> final(self).remaining().len() == 0,
            r matches Some(item) ==> item_agrees(item, old(self).remaining()[0]),
            r is Some ==> final(self).remaining() == old(self).remaining().drop_first(),
    {
        let ghost frames = self.remaining();
        loop
            invariant
                self.wf(),
                self.remaining() == frames,
                frames == old(self).remaining(),
            decreases self.source@.len() - self.pos,
        {
            let ghost rest = self.source@.subrange(self.pos as int, self.source@.len() as int);
            let ghost st0 = self.scanner.state_of();
            let ghost buf0 = self.scanner.gathered();
            if self.scanner.is_done() {
                assert(frames =~= Seq::<ScanFrame>::empty());
                return None;
            }
            if self.pos == self.source.len() {
                assert(rest =~= Seq::<u8>::empty());
                let item = self.scanner.finish();
                proof {
                    assert(self.source@.subrange(self.pos as int, self.source@.len() as int)
                        =~= Seq::<u8>::empty());
                    if item is Some {
                        assert(frames.drop_first() =~= Seq::<ScanFrame>::empty());
                    }
                }
                return item;
            }
            let b = self.source[self.pos];
            self.pos = self.pos + 1;
            proof {
                assert(rest[0] == b);
                assert(rest.drop_first() =~= self.source@.subrange(
                    self.pos as int,
                    self.source@.len() as int,
                ));
                lemma_scan_unfold(st0, buf0, rest);
            }
            let item = self.scanner.feed(b);
            if item.is_some() {
                assert(frames.drop_first() =~= self.remaining());
                return item;
            }
        }
    }

    /// Every card of the array, or the error of its first element that is not
    /// a well-formed card.
    pub fn collect_cards(&mut self) -> (r: Result<Vec<Card>, DeckError>)
        requires
            old(self).wf(),
        ensures
            r is Ok <==> records_of(old(self).remaining()) is Some,
            r matches Ok(cards) ==> records_of(old(self).remaining()) == Some(
                cards@.map_values(|c: Card| c@),
            ),
            r matches Err(e) ==> item_agrees(Err(e), first_bad_frame(old(self).remaining())),
    {
        let ghost frames = self.remaining();
        let mut cards: Vec<Card> = Vec::new();
        loop
            invariant
                self.wf(),
                records_of(frames) == match records_of(self.remaining()) {
                    Some(rest) => Some(cards@.map_values(|c: Card| c@) + rest),
                    None => None,
                },
                first_bad_frame(frames) == first_bad_frame(self.remaining()),
                frames == old(self).remaining(),
            decreases self.remaining().len(),
        {
            let ghost before = self.remaining();
            match self.next() {
                None => {
                    assert(self.remaining() =~= Seq::<ScanFrame>::empty());
                    assert(records_of(self.remaining()) == Some(
                        Seq::<(Seq<char>, Seq<char>)>::empty(),
                    ));
                    assert(cards@.map_values(|c: Card| c@) + Seq::empty() =~= cards@.map_values(
                        |c: Card| c@,
                    ));
                    return Ok(cards);
                },
                Some(Ok(card)) => {
                    let ghost c = card@;
                    let ghost prev = cards@.map_values(|c: Card| c@);
                    assert(frame_record(before[0]) == Some(c));
                    cards.push(card);
                    proof {
                        let now = cards@.map_values(|c: Card| c@);
                        assert(now =~= prev.push(c));
                        if let Some(rest) = records_of(self.remaining()) {
                            assert(records_of(before) == Some(seq![c] + rest));
                            assert(prev + (seq![c] + rest) =~= now + rest);
                        }
                    }
                },
                Some(Err(e)) => {
                    assert(frame_record(before[0]) is None);
                    assert(records_of(before) is None);
                    assert(first_bad_frame(before) == before[0]);
                    return Err(e);
                },
            }
        }
    }
}

/// The cards of a JSON deck to import: every frame must be a well-formed
/// element whose text form reads back as a card; `None` otherwise.
pub open spec fn json_import(frames: Seq<ScanFrame>) -> Option<Seq<(Seq<char>, Seq<char>)>>
    decreases frames.len(),
{
    if frames.len() == 0 {
        Some(Seq::empty())
    } else {
        match (frame_record(frames[0]), json_import(frames.drop_first())) {
            (Some(c), Some(rest)) => if parse_record(format_record(c.0, c.1)) is Some {
                Some(seq![c] + rest)
            } else {
                None
            },
            _ => None,
        }
    }
}

/// `e` is the error of the first frame that is not a well-formed element, or
/// whose card's text form does not read back as a card.
pub open spec fn json_import_error(e: DeckError, frames: Seq<ScanFrame>) -> bool
    decreases frames.len(),
{
    if frames.len() == 0 {
        false
    } else {
        match frame_record(frames[0]) {
            None => item_agrees(Err(e), frames[0]),
            Some(c) => if parse_record(format_record(c.0, c.1)) is None {
                e matches DeckError::InvalidRecord(t) && t@ == format_record(c.0, c.1)
            } else {
                json_import_error(e, frames.drop_first())
            },
        }
    }
}

/// All or nothing: when any element of a JSON deck is not a well-formed card,
/// the deck yields no cards to import at all.
pub proof fn lemma_json_all_or_nothing(frames: Seq<ScanFrame>, i: int)
    requires
        0 <= i < frames.len(),
        frame_record(frames[i]) is None || parse_record(
            format_record(frame_record(frames[i])->Some_0.0, frame_record(frames[i])->Some_0.1),
        ) is None,
    ensures
        json_import(frames) is None,
    decreases i,
{
    if i > 0 {
        lemma_json_all_or_nothing(frames.drop_first(), i - 1);
    }
}

/// The text form of each card, in order.
pub open spec fn record_lines(recs: Seq<(Seq<char>, Seq<char>)>) -> Seq<Seq<char>> {
    recs.map_values(|c: (Seq<char>, Seq<char>)| format_record(c.0, c.1))
}

/// One step of the prepare phase of an import: a card is staged in text form
/// once that text reads back as a card. An error, or a card whose text does
/// not read back, fails the buffer and is returned.
pub fn stage_card(buffer: &mut FileCommitBuffer, item: Result<Card, DeckError>) -> (r: Result<
    (),
    DeckError,
>)
    requires
        old(buffer).wf(),
        old(buffer).phase_of() == CommitPhase::Preparing,
    ensures
        final(buffer).wf(),
        final(buffer).committed_count() == old(buffer).committed_count(),
        r is Ok ==> final(buffer).phase_of() == CommitPhase::Preparing,
        r is Err ==> final(buffer).phase_of() == CommitPhase::Failed && final(buffer).staged()
            == old(buffer).staged(),
        item matches Ok(c) ==> (r is Ok <==> parse_record(format_record(c.front@, c.back@))
            is Some),
        item matches Ok(c) ==> (r is Ok ==> final(buffer).staged() == old(buffer).staged().push(
            format_record(c.front@, c.back@),
        )),
        item matches Ok(c) ==> (r matches Err(e) ==> (e matches DeckError::InvalidRecord(t) && t@
            == format_record(c.front@, c.back@))),
        item matches Err(e) ==> r == Err::<(), DeckError>(e),
{
    proof {
        old(buffer).lemma_preparing_commits_nothing();
    }
    match item {
        Ok(card) => {
            let line = card.to_string();
            match Card::from_str(line.as_str()) {
                Ok(_) => {
                    buffer.stage(line);
                    Ok(())
                },
                Err(e) => {
                    buffer.fail();
                    Err(e)
                },
            }
        },
        Err(e) => {
            buffer.fail();
            Err(e)
        },
    }
}

/// The text staged for a frame: the text form of its card, when the frame is a
/// well-formed element whose text form reads back as a card.
pub open spec fn frame_staged(f: ScanFrame) -> Option<Seq<char>> {
    match frame_record(f) {
        Some(c) => if parse_record(format_record(c.0, c.1)) is Some {
            Some(format_record(c.0, c.1))
        } else {
            None
        },
        None => None,
    }
}

/// The prepare phase of a JSON import, fed one byte of the file at a time.
/// Each element is staged as soon as it is read; the first element that
/// cannot be staged ends the import with its error.
pub struct JsonImport {
    scanner: JsonScanner,
    buffer: FileCommitBuffer,
}

impl JsonImport {
    pub closed spec fn scan_state(&self) -> JsonState {
        self.scanner.state_of()
    }

    pub closed spec fn gathered(&self) -> Seq<u8> {
        self.scanner.gathered()
    }

    /// The lines staged so far.
    pub closed spec fn staged(&self) -> Seq<Seq<char>> {
        self.buffer.staged()
    }

    /// No element has failed so far.
    pub closed spec fn preparing(&self) -> bool {
        self.buffer.wf() && self.buffer.phase_of() == CommitPhase::Preparing
    }

    pub fn new() -> (r: JsonImport)
        ensures
            r.preparing(),
            r.scan_state() == JsonState::Outside,
            r.gathered() == Seq::<u8>::empty(),
            r.staged() == Seq::<Seq<char>>::empty(),
    {
        JsonImport { scanner: JsonScanner::new(), buffer: FileCommitBuffer::new() }
    }

    /// Reads one byte and stages the element it completes, if any. `Ok(true)`:
    /// read on; `Ok(false)`: the array is closed, nothing more is read; an error
    /// ends the import.
    pub fn read_byte(&mut self, b: u8) -> (r: Result<bool, DeckError>)
        requires
            old(self).preparing(),
        ensures
            final(self).scan_state() == scan_step(old(self).scan_state(), old(self).gathered(), b).0,
            final(self).gathered() == scan_step(old(self).scan_state(), old(self).gathered(), b).1,
            scan_step(old(self).scan_state(), old(self).gathered(), b).2 is None ==> r is Ok
                && final(self).staged() == old(self).staged(),
            scan_step(old(self).scan_state(), old(self).gathered(), b).2 is Some && frame_staged(
                scan_step(old(self).scan_state(), old(self).gathered(), b).2->Some_0,
            ) is Some ==> r is Ok && final(self).staged() == old(self).staged().push(
                frame_staged(scan_step(old(self).scan_state(), old(self).gathered(), b).2->Some_0)->Some_0,
            ),
            scan_step(old(self).scan_state(), old(self).gathered(), b).2 is Some && frame_staged(
                scan_step(old(self).scan_state(), old(self).gathered(), b).2->Some_0,
            ) is None ==> r is Err && json_import_error(
                r->Err_0,
                seq![scan_step(old(self).scan_state(), old(self).gathered(), b).2->Some_0],
            ),
            r is Ok ==> final(self).preparing() && r->Ok_0 == !(final(self).scan_state()
                == JsonState::Closed || final(self).scan_state() == JsonState::Failed),
    {
        let ghost step = scan_step(self.scanner.state_of(), self.scanner.gathered(), b);
        match self.scanner.feed(b) {
            None => Ok(!self.scanner.is_done()),
            Some(item) => {
                let ghost f = step.2->Some_0;
                proof {
                    if item is Err {
                        assert(frame_record(f) is None);
                    } else {
                        assert(frame_record(f) == Some(item->Ok_0@));
                    }
                    assert(seq![f].drop_first() =~= Seq::<ScanFrame>::empty());
                }
                match stage_card(&mut self.buffer, item) {
                    Ok(()) => Ok(!self.scanner.is_done()),
                    Err(e) => Err(e),
                }
            },
        }
    }

    /// Ends the input: the buffer, sealed and ready to commit, or the error of
    /// an array or object left open.
    pub fn finish(self) -> (r: Result<FileCommitBuffer, DeckError>)
        requires
            self.preparing(),
        ensures
            scan_frames(self.scan_state(), self.gathered(), Seq::empty()).len() == 0 ==> (
            r matches Ok(b) && b.wf() && b.staged() == self.staged() && b.committed_count() == 0
                && b.phase_of() == if self.staged().len() == 0 {
                CommitPhase::Done
            } else {
                CommitPhase::Committing
            }),
            scan_frames(self.scan_state(), self.gathered(), Seq::empty()).len() > 0 ==> (
            r matches Err(e) && item_agrees(
                Err(e),
                scan_frames(self.scan_state(), self.gathered(), Seq::empty())[0],
            )),
    {
        let mut scanner = self.scanner;
        let mut buffer = self.buffer;
        proof {
            buffer.lemma_preparing_commits_nothing();
        }
        match scanner.finish() {
            None => {
                buffer.seal();
                Ok(buffer)
            },
            Some(Err(e)) => Err(e),
            Some(Ok(_)) => {
                assert(false);
                Err(DeckError::UnexpectedEndOfArray)
            },
        }
    }
}

/// A deck to be read from a JSON file holding one array of `{"front", "back"}` objects.
pub struct FromJsonDeck {
    pub path: String,
}

impl FromJsonDeck {
    pub fn new(path: &str) -> (r: Result<FromJsonDeck, DeckError>)
        ensures
            r matches Ok(d) && d.path@ == path@,
    {
        Ok(FromJsonDeck { path: path.to_owned() })
    }

    /// The prepare phase of an import: every element of `source` is read and
    /// its card staged in text form, once that text reads back as a card. The
    /// buffer comes back, ready to commit, only when every element passes;
    /// otherwise the error of the first one that does not.
    pub fn prepare(&self, source: Vec<u8>) -> (r: Result<FileCommitBuffer, DeckError>)
        ensures
            r is Ok <==> json_import(json_frames(source@)) is Some,
            r matches Ok(b) ==> {
                &&& b.wf()
                &&& b.staged() == record_lines(json_import(json_frames(source@))->Some_0)
                &&& b.committed_count() == 0
                &&& b.phase_of() == if b.staged().len() == 0 {
                    CommitPhase::Done
                } else {
                    CommitPhase::Committing
                }
            },
            r matches Err(e) ==> json_import_error(e, json_frames(source@)),
    {
        let ghost all = json_frames(source@);
        let mut stream = JsonArrayStream::new(source);
        let mut buffer = FileCommitBuffer::new();
        let ghost mut recs: Seq<(Seq<char>, Seq<char>)> = Seq::empty();
        loop
            invariant
                all == json_frames(source@),
                stream.wf(),
                buffer.wf(),
                buffer.phase_of() == CommitPhase::Preparing,
                buffer.committed_count() == 0,
                buffer.staged() == record_lines(recs),
                json_import(all) == match json_import(stream.remaining()) {
                    Some(rest) => Some(recs + rest),
                    None => None,
                },
                forall|e: DeckError|
                    json_import_error(e, all) == json_import_error(e, stream.remaining()),
            decreases stream.remaining().len(),
        {
            let ghost before = stream.remaining();
            match stream.next() {
                None => {
                    assert(stream.remaining() =~= Seq::<ScanFrame>::empty());
                    assert(json_import(stream.remaining()) == Some(
                        Seq::<(Seq<char>, Seq<char>)>::empty(),
                    ));
                    assert(recs + Seq::empty() =~= recs);
                    buffer.seal();
                    return Ok(buffer);
                },
                Some(Ok(card)) => {
                    let ghost c = card@;
                    assert(frame_record(before[0]) == Some(c));
                    let ghost prev = recs;
                    match stage_card(&mut buffer, Ok(card)) {
                        Ok(()) => {
                            proof {
                                recs = recs.push(c);
                                assert(record_lines(recs) =~= record_lines(prev).push(
                                    format_record(c.0, c.1),
                                ));
                                if let Some(rest) = json_import(stream.remaining()) {
                                    assert(json_import(before) == Some(seq![c] + rest));
                                    assert(prev + (seq![c] + rest) =~= recs + rest);
                                }
                                assert forall|e: DeckError|
                                    json_import_error(e, before) == json_import_error(
                                        e,
                                        stream.remaining(),
                                    ) by {
                                    assert(before.drop_first() == stream.remaining());
                                }
                            }
                        },
                        Err(e) => {
                            assert(json_import(before) is None);
                            assert(json_import_error(e, before));
                            return Err(e);
                        },
                    }
                },
                Some(Err(e)) => {
                    assert(frame_record(before[0]) is None);
                    assert(json_import(before) is None);
                    assert(json_import_error(e, before));
                    buffer.fail();
                    return Err(e);
                },
            }
        }
    }
}

/// One card as a JSON object: `{"front":<front>,"back":<back>}`.
pub open spec fn json_element(front_quoted: Seq<char>, back_quoted: Seq<char>) -> Seq<char> {
    seq!['{', '"', 'f', 'r', 'o', 'n', 't', '"', ':'] + front_quoted + seq![
        ',',
        '"',
        'b',
        'a',
        'c',
        'k',
        '"',
        ':',
    ] + back_quoted + seq!['}']
}

/// The elements of the cards, separated by `,`.
pub open spec fn json_elements(recs: Seq<(Seq<char>, Seq<char>)>) -> Seq<char>
    decreases recs.len(),
{
    if recs.len() == 0 {
        Seq::empty()
    } else if recs.len() == 1 {
        json_element(json_quoted(recs[0].0), json_quoted(recs[0].1))
    } else {
        json_elements(recs.drop_last()) + seq![','] + json_element(
            json_quoted(recs.last().0),
            json_quoted(recs.last().1),
        )
    }
}

/// A JSON document holding one array of the cards.
pub open spec fn json_document(recs: Seq<(Seq<char>, Seq<char>)>) -> Seq<char> {
    seq!['['] + json_elements(recs) + seq![']']
}

/// The JSON object for one card, from its two quoted sides.
pub fn json_element_text(front_quoted: &str, back_quoted: &str) -> (r: String)
    ensures
        r@ == json_element(front_quoted@, back_quoted@),
{
    let mut r = "{\"front\":".to_owned();
    r.append(front_quoted);
    r.append(",\"back\":");
    r.append(back_quoted);
    r.append("}");
    proof {
        reveal_strlit("{\"front\":");
        reveal_strlit(",\"back\":");
        reveal_strlit("}");
        assert(r@ =~= json_element(front_quoted@, back_quoted@));
    }
    r
}

/// A deck to be written to a JSON file.
pub struct ToJsonDeck {
    pub path: String,
}

pub open spec fn json_suffix() -> Seq<char> {
    seq!['.', 'j', 's', 'o', 'n']
}

impl ToJsonDeck {
    /// The deck goes to `<deck>.json`.
    pub fn new(deck: &str) -> (r: ToJsonDeck)
        ensures
            r.path@ == deck@ + json_suffix(),
    {
        let mut path = deck.to_owned();
        path.append(".json");
        proof {
            reveal_strlit(".json");
        }
        ToJsonDeck { path }
    }

    /// The text of the destination file. An existing destination is refused
    /// before anything else. In the prepare phase each card's text form is
    /// staged once it reads back as a card; in the commit phase each staged line
    /// becomes one element of the array, in order. With an absent destination
    /// and cards that all read back, the write succeeds.
    pub fn write(&self, destination_exists: bool, cards: &Vec<Card>) -> (r: Result<String, DeckError>)
        ensures
            destination_exists ==> (r matches Err(DeckError::DestinationExists(p)) && p@
                == self.path@),
            !destination_exists && export_records(cards@.map_values(|c: Card| c@)) is None ==> (
            r matches Err(DeckError::InvalidRecord(t)) && t@ == first_unreadable(
                cards@.map_values(|c: Card| c@),
            )),
            !destination_exists && export_records(cards@.map_values(|c: Card| c@)) is Some ==> r is Ok,
            r matches Ok(text) ==> !destination_exists && export_records(
                cards@.map_values(|c: Card| c@),
            ) is Some && text@ == json_document(
                export_records(cards@.map_values(|c: Card| c@))->Some_0,
            ),
    {
        if destination_exists {
            return Err(DeckError::DestinationExists(self.path.clone()));
        }
        let ghost all = cards@.map_values(|c: Card| c@);
        let mut buffer = match stage_cards(cards) {
            Ok(buffer) => buffer,
            Err(e) => {
                return Err(e);
            },
        };
        let ghost recs = export_records(all)->Some_0;
        proof {
            lemma_export_records_len(all);
        }
        let mut out = "[".to_owned();
        proof {
            reveal_strlit("[");
            assert(out@ =~= seq!['['] + json_elements(recs.subrange(0, 0)));
        }
        while buffer.pending().is_some()
            invariant
                !destination_exists,
                all == cards@.map_values(|c: Card| c@),
                export_records(all) == Some(recs),
                buffer.wf(),
                buffer.staged().len() == recs.len(),
                buffer.phase_of() == CommitPhase::Committing || buffer.phase_of()
                    == CommitPhase::Done,
                forall|k: int|
                    0 <= k < recs.len() ==> parse_record(#[trigger] buffer.staged()[k]) == Some(
                        recs[k],
                    ),
                out@ == seq!['['] + json_elements(
                    recs.subrange(0, buffer.committed_count() as int),
                ),
                buffer.phase_of() == CommitPhase::Done ==> buffer.committed_count() == recs.len(),
            decreases recs.len() - buffer.committed_count(),
        {
            let k = buffer.committed();
            let line = buffer.pending().unwrap();
            let card = match Card::from_str(line.as_str()) {
                Ok(card) => card,
                Err(e) => {
                    proof {
                        assert(parse_record(buffer.staged()[k as int]) is Some);
                    }
                    return Err(e);
                },
            };
            let front = quote_json(card.front.as_str()).unwrap();
            let back = quote_json(card.back.as_str()).unwrap();
            if k > 0 {
                out.append(",");
            }
            out.append(json_element_text(front.as_str(), back.as_str()).as_str());
            proof {
                reveal_strlit(",");
                let done = recs.subrange(0, k + 1);
                assert(done.drop_last() =~= recs.subrange(0, k as int));
                assert(done.last() == recs[k as int]);
                assert(card@ == recs[k as int]);
                assert(out@ =~= seq!['['] + json_elements(done));
            }
            buffer.mark_committed();
        }
        proof {
            assert(recs.subrange(0, recs.len() as int) =~= recs);
        }
        out.append("]");
        proof {
            reveal_strlit("]");
            assert(out@ =~= json_document(recs));
        }
        Ok(out)
    }
}

} // verus!
