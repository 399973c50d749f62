use vstd::prelude::*;

use pulldown_cmark::{Event, Parser, Tag, TagEnd};

use crate::card::{format_record, parse_record, Card};
use crate::commit::{CommitPhase, FileCommitBuffer};
use crate::error::DeckError;
use crate::export::{export_records, first_unreadable, stage_cards};
use crate::text::{all_white, char_is_white, chars_of, decimal, push_decimal};

verus! {

/// One markup event of a single line, as far as list reading tells them apart.
#[derive(Debug, Clone, PartialEq, Eq)]
pub enum LineEvent {
    /// Start of a numbered list.
    OrderedList,
    /// Start of a bulleted list.
    UnorderedList,
    /// Start of a list item.
    ItemStart,
    /// A run of plain text.
    Text(String),
    /// End of a list item.
    ItemEnd,
    /// Anything else: a heading, a paragraph, code, emphasis, a list end, ...
    Other,
}

/// The mathematical form of a [`LineEvent`].
pub enum MarkupToken {
    OrderedList,
    UnorderedList,
    ItemStart,
    Text(Seq<char>),
    ItemEnd,
    Other,
}

impl View for LineEvent {
    type V = MarkupToken;

    open spec fn view(&self) -> MarkupToken {
        match self {
            LineEvent::OrderedList => MarkupToken::OrderedList,
            LineEvent::UnorderedList => MarkupToken::UnorderedList,
            LineEvent::ItemStart => MarkupToken::ItemStart,
            LineEvent::Text(t) => MarkupToken::Text(t@),
            LineEvent::ItemEnd => MarkupToken::ItemEnd,
            LineEvent::Other => MarkupToken::Other,
        }
    }
}

/// The events that the markup tokenizer gives for one line read on its own.
pub uninterp spec fn markup_line_tokens(line: Seq<char>) -> Seq<MarkupToken>;

/// Relies on `pulldown_cmark::Parser::new` over one line: its events, in order,
/// each told apart as a [`LineEvent`].
#[verifier::external_body]
fn line_events(line: &str) -> (r: Vec<LineEvent>)
    ensures
        r@.map_values(|e: LineEvent| e@) == markup_line_tokens(line@),
{
    let mut events = Vec::new();
    for event in Parser::new(line) {
        events.push(match event {
            Event::Start(Tag::List(Some(_))) => LineEvent::OrderedList,
            Event::Start(Tag::List(None)) => LineEvent::UnorderedList,
            Event::Start(Tag::Item) => LineEvent::ItemStart,
            Event::Text(text) => LineEvent::Text(text.into_string()),
            Event::End(TagEnd::Item) => LineEvent::ItemEnd,
            _ => LineEvent::Other,
        });
    }
    events
}

/// The kind of list of a whole file; once set it stays.
#[derive(Debug, Clone, Copy, PartialEq, Eq, Structural)]
pub enum TypeList {
    Ordered,
    Unordered,
    Undefined,
}

impl TypeList {
    pub fn is_ordered(&self) -> (r: bool)
        ensures
            r == (*self == TypeList::Ordered),
    {
        *self == TypeList::Ordered
    }

    pub fn is_unordered(&self) -> (r: bool)
        ensures
            r == (*self == TypeList::Unordered),
    {
        *self == TypeList::Unordered
    }
}

/// Where the reading of one line stands.
#[derive(Debug, Clone, Copy, PartialEq, Eq, Structural)]
pub enum ParserState {
    InList,
    InListItem,
    Undefined,
}

impl ParserState {
    pub fn in_list(&self) -> (r: bool)
        ensures
            r == (*self == ParserState::InList),
    {
        *self == ParserState::InList
    }

    pub fn in_list_item(&self) -> (r: bool)
        ensures
            r == (*self == ParserState::InListItem),
    {
        *self == ParserState::InListItem
    }
}

/// What one line gives.
pub enum LineOutcome {
    /// Nothing: the line is blank, or its events end before an item does.
    Skip,
    /// The text of one list item.
    Item(Seq<char>),
    /// The line holds something other than one plain list item.
    Unsupported,
    /// The line starts a list of the other kind than the file's.
    Mixed,
}

/// Reading the events of one line, from a per-line state and the text gathered
/// so far: the file's list kind afterwards and what the line gives.
pub open spec fn scan_tokens(
    kind: TypeList,
    st: ParserState,
    text: Seq<char>,
    toks: Seq<MarkupToken>,
) -> (TypeList, LineOutcome)
    decreases toks.len(),
{
    if toks.len() == 0 {
        (kind, LineOutcome::Skip)
    } else {
        let rest = toks.drop_first();
        match toks[0] {
            MarkupToken::OrderedList => if kind == TypeList::Unordered {
                (kind, LineOutcome::Mixed)
            } else if st != ParserState::Undefined {
                (kind, LineOutcome::Unsupported)
            } else {
                scan_tokens(TypeList::Ordered, ParserState::InList, text, rest)
            },
            MarkupToken::UnorderedList => if kind == TypeList::Ordered {
                (kind, LineOutcome::Mixed)
            } else if st != ParserState::Undefined {
                (kind, LineOutcome::Unsupported)
            } else {
                scan_tokens(TypeList::Unordered, ParserState::InList, text, rest)
            },
            MarkupToken::ItemStart => if st == ParserState::InList {
                scan_tokens(kind, ParserState::InListItem, text, rest)
            } else {
                (kind, LineOutcome::Unsupported)
            },
            MarkupToken::Text(t) => if st == ParserState::InListItem {
                scan_tokens(kind, st, text + t, rest)
            } else {
                (kind, LineOutcome::Unsupported)
            },
            MarkupToken::ItemEnd => if st == ParserState::InListItem {
                (kind, LineOutcome::Item(text))
            } else {
                (kind, LineOutcome::Unsupported)
            },
            MarkupToken::Other => (kind, LineOutcome::Unsupported),
        }
    }
}

/// What a line gives when the file's list kind is `kind`: blank lines give nothing.
pub open spec fn line_step(kind: TypeList, line: Seq<char>) -> (TypeList, LineOutcome) {
    if all_white(line) {
        (kind, LineOutcome::Skip)
    } else {
        scan_tokens(kind, ParserState::Undefined, Seq::empty(), markup_line_tokens(line))
    }
}

/// The item texts and errors that the lines give; an error ends the stream.
pub open spec fn markdown_items(kind: TypeList, failed: bool, lines: Seq<Seq<char>>) -> Seq<
    Result<Seq<char>, DeckError>,
>
    decreases lines.len(),
{
    if failed || lines.len() == 0 {
        Seq::empty()
    } else {
        let (k2, out) = line_step(kind, lines[0]);
        let rest = lines.drop_first();
        match out {
            LineOutcome::Skip => markdown_items(k2, false, rest),
            LineOutcome::Item(t) => seq![Ok(t)] + markdown_items(k2, false, rest),
            LineOutcome::Unsupported => seq![Err(DeckError::UnsupportedMarkdown)],
            LineOutcome::Mixed => seq![Err(DeckError::MixedList)],
        }
    }
}

/// The items of a whole file.
pub open spec fn markdown_stream(lines: Seq<Seq<char>>) -> Seq<Result<Seq<char>, DeckError>> {
    markdown_items(TypeList::Undefined, false, lines)
}

pub open spec fn item_view(r: Result<String, DeckError>) -> Result<Seq<char>, DeckError> {
    match r {
        Ok(s) => Ok(s@),
        Err(e) => Err(e),
    }
}

pub open spec fn outcome_agrees(r: Option<Result<String, DeckError>>, out: LineOutcome) -> bool {
    match out {
        LineOutcome::Skip => r is None,
        LineOutcome::Item(t) => r matches Some(Ok(s)) && s@ == t,
        LineOutcome::Unsupported => r == Some(Err::<String, DeckError>(DeckError::UnsupportedMarkdown)),
        LineOutcome::Mixed => r == Some(Err::<String, DeckError>(DeckError::MixedList)),
    }
}

/// Reads the events of one non-blank line when the file's list kind is
/// `type_list`: the kind afterwards, and the item text, the error, or nothing.
pub fn line_outcome(type_list: TypeList, events: &Vec<LineEvent>) -> (r: (
    TypeList,
    Option<Result<String, DeckError>>,
))
    ensures
        r.0 == scan_tokens(
            type_list,
            ParserState::Undefined,
            Seq::empty(),
            events@.map_values(|e: LineEvent| e@),
        ).0,
        outcome_agrees(
            r.1,
            scan_tokens(
                type_list,
                ParserState::Undefined,
                Seq::empty(),
                events@.map_values(|e: LineEvent| e@),
            ).1,
        ),
{
    let ghost toks = events@.map_values(|e: LineEvent| e@);
    let mut kind = type_list;
    let mut state = ParserState::Undefined;
    let mut text = String::new();
    let mut i: usize = 0;
    assert(toks.subrange(0, toks.len() as int) =~= toks);
    assert(text@ =~= Seq::<char>::empty());
    while i < events.len()
        invariant
            i <= events@.len() == toks.len(),
            toks == events@.map_values(|e: LineEvent| e@),
            scan_tokens(type_list, ParserState::Undefined, Seq::empty(), toks) == scan_tokens(
                kind,
                state,
                text@,
                toks.subrange(i as int, toks.len() as int),
            ),
        decreases events@.len() - i,
    {
        let ghost rest = toks.subrange(i as int, toks.len() as int);
        assert(rest[0] == events@[i as int]@);
        assert(rest.drop_first() =~= toks.subrange(i + 1, toks.len() as int));
        match &events[i] {
            LineEvent::OrderedList => {
                if kind.is_unordered() {
                    return (kind, Some(Err(DeckError::MixedList)));
                }
                if !(state == ParserState::Undefined) {
                    return (kind, Some(Err(DeckError::UnsupportedMarkdown)));
                }
                kind = TypeList::Ordered;
                state = ParserState::InList;
            },
            LineEvent::UnorderedList => {
                if kind.is_ordered() {
                    return (kind, Some(Err(DeckError::MixedList)));
                }
                if !(state == ParserState::Undefined) {
                    return (kind, Some(Err(DeckError::UnsupportedMarkdown)));
                }
                kind = TypeList::Unordered;
                state = ParserState::InList;
            },
            LineEvent::ItemStart => {
                if !state.in_list() {
                    return (kind, Some(Err(DeckError::UnsupportedMarkdown)));
                }
                state = ParserState::InListItem;
            },
            LineEvent::Text(t) => {
                if !state.in_list_item() {
                    return (kind, Some(Err(DeckError::UnsupportedMarkdown)));
                }
                text.append(t.as_str());
            },
            LineEvent::ItemEnd => {
                if !state.in_list_item() {
                    return (kind, Some(Err(DeckError::UnsupportedMarkdown)));
                }
                return (kind, Some(Ok(text)));
            },
            LineEvent::Other => {
                return (kind, Some(Err(DeckError::UnsupportedMarkdown)));
            },
        }
        i = i + 1;
    }
    (kind, None)
}

/// Whether a line holds nothing but white space.
pub fn is_blank(line: &str) -> (r: bool)
    ensures
        r == all_white(line@),
{
    let v = chars_of(line);
    let mut i: usize = 0;
    while i < v.len()
        invariant
            i <= v@.len(),
            v@ == line@,
            forall|k: int| 0 <= k < i ==> crate::text::is_white(#[trigger] v@[k]),
        decreases v@.len() - i,
    {
        if !char_is_white(v[i]) {
            return false;
        }
        i = i + 1;
    }
    true
}

/// Reads the lines of a markup file one at a time, keeping the file's list
/// kind. Blank lines give nothing; the first line that is not a plain item of
/// the file's one list kind gives an error, after which nothing more is read.
pub struct MarkdownListReader {
    type_list: TypeList,
    failed: bool,
}

impl MarkdownListReader {
    pub closed spec fn kind_of(&self) -> TypeList {
        self.type_list
    }

    pub closed spec fn failed_of(&self) -> bool {
        self.failed
    }

    pub fn new() -> (r: MarkdownListReader)
        ensures
            r.kind_of() == TypeList::Undefined,
            !r.failed_of(),
    {
        MarkdownListReader { type_list: TypeList::Undefined, failed: false }
    }

    /// Reads one line: the item text it holds, the error it gives, or nothing.
    pub fn read_line(&mut self, line: &str) -> (r: Option<Result<String, DeckError>>)
        ensures
            old(self).failed_of() ==> r is None && *final(self) == *old(self),
            !old(self).failed_of() ==> final(self).kind_of() == line_step(
                old(self).kind_of(),
                line@,
            ).0 && outcome_agrees(r, line_step(old(self).kind_of(), line@).1)
                && final(self).failed_of() == (r matches Some(Err(_))),
    {
        if self.failed {
            return None;
        }
        if is_blank(line) {
            return None;
        }
        let events = line_events(line);
        let (kind, outcome) = line_outcome(self.type_list, &events);
        self.type_list = kind;
        if let Some(Err(_)) = &outcome {
            self.failed = true;
        }
        outcome
    }
}

/// A lazy reader of the items of the one list that markup lines hold, the
/// lines being held in memory and handed to a [`MarkdownListReader`].
pub struct MarkdownListStream {
    lines: Vec<String>,
    pos: usize,
    reader: MarkdownListReader,
}

impl MarkdownListStream {
    pub closed spec fn wf(&self) -> bool {
        self.pos <= self.lines@.len()
    }

    /// The items that the stream has still to hand out.
    pub closed spec fn remaining(&self) -> Seq<Result<Seq<char>, DeckError>> {
        markdown_items(
            self.reader.kind_of(),
            self.reader.failed_of(),
            self.lines@.subrange(self.pos as int, self.lines@.len() as int).map_values(
                |l: String| l@,
            ),
        )
    }

    pub fn new(lines: Vec<String>) -> (r: MarkdownListStream)
        ensures
            r.wf(),
            r.remaining() == markdown_stream(lines@.map_values(|l: String| l@)),
    {
        let r = MarkdownListStream { lines, pos: 0, reader: MarkdownListReader::new() };
        proof {
            assert(r.lines@.subrange(0, r.lines@.len() as int) =~= r.lines@);
        }
        r
    }

    /// The next item text, or the error that ends the stream; `None` once the
    /// lines are used up or after an error.
    pub fn next(&mut self) -> (r: Option<Result<String, DeckError>>)
        requires
            old(self).wf(),
        ensures
            final(self).wf(),
            r is None <==> old(self).remaining().len() == 0,
            r is None ==> final(self).remaining().len() == 0,
            r matches Some(item) ==> item_view(item) == old(self).remaining()[0],
            r is Some ==> final(self).remaining() == old(self).remaining().drop_first(),
    {
        let ghost items = self.remaining();
        loop
            invariant
                self.wf(),
                self.remaining() == items,
                items == old(self).remaining(),
            decreases self.lines@.len() - self.pos,
        {
            let ghost rest = self.lines@.subrange(self.pos as int, self.lines@.len() as int).map_values(
                |l: String| l@,
            );
            if self.reader.failed || self.pos == self.lines.len() {
                assert(items =~= Seq::<Result<Seq<char>, DeckError>>::empty());
                return None;
            }
            let ghost line_view = self.lines@[self.pos as int]@;
            proof {
                assert(rest[0] == line_view);
                assert(rest.drop_first() =~= self.lines@.subrange(
                    self.pos + 1,
                    self.lines@.len() as int,
                ).map_values(|l: String| l@));
            }
            let outcome = self.reader.read_line(self.lines[self.pos].as_str());
            self.pos = self.pos + 1;
            match outcome {
                None => {},
                Some(Ok(text)) => {
                    assert(items[0] == Ok::<Seq<char>, DeckError>(text@));
                    assert(items.drop_first() =~= self.remaining());
                    return Some(Ok(text));
                },
                Some(Err(e)) => {
                    assert(items =~= seq![Err::<Seq<char>, DeckError>(e)]);
                    assert(self.remaining() =~= Seq::<Result<Seq<char>, DeckError>>::empty());
                    return Some(Err(e));
                },
            }
        }
    }

    /// Every item text, or the error that ends the stream.
    pub fn collect_items(&mut self) -> (r: Result<Vec<String>, DeckError>)
        requires
            old(self).wf(),
        ensures
            r is Ok <==> item_texts(old(self).remaining()) is Some,
            r matches Ok(v) ==> item_texts(old(self).remaining()) == Some(
                v@.map_values(|s: String| s@),
            ),
            r matches Err(e) ==> first_failure(old(self).remaining()) == Some(e),
    {
        let ghost items = self.remaining();
        let mut texts: Vec<String> = Vec::new();
        loop
            invariant
                self.wf(),
                items == old(self).remaining(),
                item_texts(items) == match item_texts(self.remaining()) {
                    Some(rest) => Some(texts@.map_values(|s: String| s@) + rest),
                    None => None,
                },
                first_failure(items) == first_failure(self.remaining()),
            decreases self.remaining().len(),
        {
            let ghost before = self.remaining();
            match self.next() {
                None => {
                    assert(self.remaining() =~= Seq::<Result<Seq<char>, DeckError>>::empty());
                    assert(texts@.map_values(|s: String| s@) + Seq::empty() =~= texts@.map_values(
                        |s: String| s@,
                    ));
                    return Ok(texts);
                },
                Some(Ok(text)) => {
                    let ghost t = text@;
                    let ghost prev = texts@.map_values(|s: String| s@);
                    texts.push(text);
                    proof {
                        let now = texts@.map_values(|s: String| s@);
                        assert(now =~= prev.push(t));
                        if let Some(rest) = item_texts(self.remaining()) {
                            assert(item_texts(before) == Some(seq![t] + rest));
                            assert(prev + (seq![t] + rest) =~= now + rest);
                        }
                    }
                },
                Some(Err(e)) => {
                    return Err(e);
                },
            }
        }
    }
}

/// The texts of all items, or `None` when one of them is an error.
pub open spec fn item_texts(items: Seq<Result<Seq<char>, DeckError>>) -> Option<Seq<Seq<char>>>
    decreases items.len(),
{
    if items.len() == 0 {
        Some(Seq::empty())
    } else {
        match (items[0], item_texts(items.drop_first())) {
            (Ok(t), Some(rest)) => Some(seq![t] + rest),
            _ => None,
        }
    }
}

/// The first error among the items.
pub open spec fn first_failure(items: Seq<Result<Seq<char>, DeckError>>) -> Option<DeckError>
    decreases items.len(),
{
    if items.len() == 0 {
        None
    } else {
        match items[0] {
            Err(e) => Some(e),
            Ok(_) => first_failure(items.drop_first()),
        }
    }
}

/// The cards that the items stand for, or `None` when one of them is an error
/// or a text that is not a card.
pub open spec fn markdown_records(items: Seq<Result<Seq<char>, DeckError>>) -> Option<
    Seq<(Seq<char>, Seq<char>)>,
>
    decreases items.len(),
{
    if items.len() == 0 {
        Some(Seq::empty())
    } else {
        match (items[0], markdown_records(items.drop_first())) {
            (Ok(t), Some(rest)) => match parse_record(t) {
                Some(c) => Some(seq![c] + rest),
                None => None,
            },
            _ => None,
        }
    }
}

/// `e` is the error of the first item that is an error or not a card.
pub open spec fn markdown_error_agrees(e: DeckError, items: Seq<Result<Seq<char>, DeckError>>) -> bool
    decreases items.len(),
{
    if items.len() == 0 {
        false
    } else {
        match items[0] {
            Err(x) => e == x,
            Ok(t) => if parse_record(t) is None {
                e matches DeckError::InvalidRecord(s) && s@ == t
            } else {
                markdown_error_agrees(e, items.drop_first())
            },
        }
    }
}

/// All or nothing: when any item of a markup deck is an error or not a card,
/// the deck yields no cards at all.
pub proof fn lemma_markdown_all_or_nothing(items: Seq<Result<Seq<char>, DeckError>>, i: int)
    requires
        0 <= i < items.len(),
        items[i] is Err || parse_record(items[i]->Ok_0) is None,
    ensures
        markdown_records(items) is None,
    decreases i,
{
    if i > 0 {
        lemma_markdown_all_or_nothing(items.drop_first(), i - 1);
    }
}

/// The prepare phase of a markup import, fed one line of the file at a time.
/// Each item is staged as a card as soon as its line is read; the first line
/// that gives an error, or an item that is not a card, ends the import.
pub struct MarkdownImport {
    reader: MarkdownListReader,
    buffer: FileCommitBuffer,
}

impl MarkdownImport {
    pub closed spec fn kind_of(&self) -> TypeList {
        self.reader.kind_of()
    }

    /// The lines staged so far.
    pub closed spec fn staged(&self) -> Seq<Seq<char>> {
        self.buffer.staged()
    }

    /// No line has failed so far.
    pub closed spec fn preparing(&self) -> bool {
        &&& self.buffer.wf()
        &&& self.buffer.phase_of() == CommitPhase::Preparing
        &&& !self.reader.failed_of()
    }

    pub fn new() -> (r: MarkdownImport)
        ensures
            r.preparing(),
            r.kind_of() == TypeList::Undefined,
            r.staged() == Seq::<Seq<char>>::empty(),
    {
        MarkdownImport { reader: MarkdownListReader::new(), buffer: FileCommitBuffer::new() }
    }

    /// Reads one line and stages the card of the item it holds, if any.
    pub fn read_line(&mut self, line: &str) -> (r: Result<(), DeckError>)
        requires
            old(self).preparing(),
        ensures
            final(self).kind_of() == line_step(old(self).kind_of(), line@).0,
            line_step(old(self).kind_of(), line@).1 is Skip ==> r is Ok && final(self).staged()
                == old(self).staged(),
            line_step(old(self).kind_of(), line@).1 is Item && parse_record(
                line_step(old(self).kind_of(), line@).1->Item_0,
            ) is Some ==> r is Ok && final(self).staged() == old(self).staged().push(
                format_record(
                    parse_record(line_step(old(self).kind_of(), line@).1->Item_0)->Some_0.0,
                    parse_record(line_step(old(self).kind_of(), line@).1->Item_0)->Some_0.1,
                ),
            ),
            line_step(old(self).kind_of(), line@).1 is Item && parse_record(
                line_step(old(self).kind_of(), line@).1->Item_0,
            ) is None ==> (r matches Err(DeckError::InvalidRecord(t)) && t@ == line_step(
                old(self).kind_of(),
                line@,
            ).1->Item_0),
            line_step(old(self).kind_of(), line@).1 is Unsupported ==> r == Err::<(), DeckError>(
                DeckError::UnsupportedMarkdown,
            ),
            line_step(old(self).kind_of(), line@).1 is Mixed ==> r == Err::<(), DeckError>(
                DeckError::MixedList,
            ),
            r is Ok ==> final(self).preparing(),
    {
        match self.reader.read_line(line) {
            None => Ok(()),
            Some(Ok(text)) => match Card::from_str(text.as_str()) {
                Ok(card) => {
                    self.buffer.stage(card.to_string());
                    Ok(())
                },
                Err(e) => {
                    self.buffer.fail();
                    Err(e)
                },
            },
            Some(Err(e)) => {
                self.buffer.fail();
                Err(e)
            },
        }
    }

    /// Ends the input: the buffer, sealed and ready to commit.
    pub fn finish(self) -> (r: FileCommitBuffer)
        requires
            self.preparing(),
        ensures
            r.wf(),
            r.staged() == self.staged(),
            r.committed_count() == 0,
            r.phase_of() == if self.staged().len() == 0 {
                CommitPhase::Done
            } else {
                CommitPhase::Committing
            },
    {
        let mut buffer = self.buffer;
        proof {
            buffer.lemma_preparing_commits_nothing();
        }
        buffer.seal();
        buffer
    }
}

/// A deck to be read from a markup file holding one list of `front - back` items.
pub struct FromMarkdownDeck {
    pub path: String,
}

impl FromMarkdownDeck {
    pub fn new(path: &str) -> (r: Result<FromMarkdownDeck, DeckError>)
        ensures
            r matches Ok(d) && d.path@ == path@,
    {
        Ok(FromMarkdownDeck { path: path.to_owned() })
    }

    /// The prepare phase of an import: every item of the file's lines is read
    /// as a card and staged in text form. The buffer comes back, ready to
    /// commit, only when every item is a card; otherwise the error of the first
    /// that is not.
    pub fn prepare(&self, lines: Vec<String>) -> (r: Result<FileCommitBuffer, DeckError>)
        ensures
            r is Ok <==> markdown_records(markdown_stream(lines@.map_values(|l: String| l@)))
                is Some,
            r matches Ok(b) ==> {
                &&& b.wf()
                &&& b.staged() == crate::json::record_lines(
                    markdown_records(markdown_stream(lines@.map_values(|l: String| l@)))->Some_0,
                )
                &&& b.committed_count() == 0
                &&& b.phase_of() == if b.staged().len() == 0 {
                    CommitPhase::Done
                } else {
                    CommitPhase::Committing
                }
            },
            r matches Err(e) ==> markdown_error_agrees(
                e,
                markdown_stream(lines@.map_values(|l: String| l@)),
            ),
    {
        let ghost all = markdown_stream(lines@.map_values(|l: String| l@));
        let mut stream = MarkdownListStream::new(lines);
        let mut buffer = FileCommitBuffer::new();
        let ghost mut recs: Seq<(Seq<char>, Seq<char>)> = Seq::empty();
        loop
            invariant
                all == markdown_stream(lines@.map_values(|l: String| l@)),
                stream.wf(),
                buffer.wf(),
                buffer.phase_of() == CommitPhase::Preparing,
                buffer.committed_count() == 0,
                buffer.staged() == crate::json::record_lines(recs),
                markdown_records(all) == match markdown_records(stream.remaining()) {
                    Some(rest) => Some(recs + rest),
                    None => None,
                },
                forall|e: DeckError|
                    markdown_error_agrees(e, all) == markdown_error_agrees(e, stream.remaining()),
            decreases stream.remaining().len(),
        {
            let ghost before = stream.remaining();
            match stream.next() {
                None => {
                    assert(stream.remaining() =~= Seq::<Result<Seq<char>, DeckError>>::empty());
                    assert(markdown_records(stream.remaining()) == Some(
                        Seq::<(Seq<char>, Seq<char>)>::empty(),
                    ));
                    assert(recs + Seq::empty() =~= recs);
                    buffer.seal();
                    return Ok(buffer);
                },
                Some(Ok(text)) => {
                    match Card::from_str(text.as_str()) {
                        Ok(card) => {
                            let ghost c = card@;
                            assert(before[0] == Ok::<Seq<char>, DeckError>(text@));
                            buffer.stage(card.to_string());
                            proof {
                                let prev = recs;
                                recs = recs.push(c);
                                assert(crate::json::record_lines(recs) =~= crate::json::record_lines(
                                    prev,
                                ).push(format_record(c.0, c.1)));
                                if let Some(rest) = markdown_records(stream.remaining()) {
                                    assert(markdown_records(before) == Some(seq![c] + rest));
                                    assert(prev + (seq![c] + rest) =~= recs + rest);
                                }
                                assert forall|e: DeckError|
                                    markdown_error_agrees(e, before) == markdown_error_agrees(
                                        e,
                                        stream.remaining(),
                                    ) by {
                                    assert(before.drop_first() == stream.remaining());
                                }
                            }
                        },
                        Err(e) => {
                            assert(before[0] == Ok::<Seq<char>, DeckError>(text@));
                            assert(markdown_records(before) is None);
                            assert(markdown_error_agrees(e, before));
                            buffer.fail();
                            return Err(e);
                        },
                    }
                },
                Some(Err(e)) => {
                    assert(markdown_records(before) is None);
                    assert(markdown_error_agrees(e, before));
                    buffer.fail();
                    return Err(e);
                },
            }
        }
    }
}

/// One numbered line of a markup deck: `<number>. <front> - <back>` and a line end.
pub open spec fn markdown_line(number: nat, rec: (Seq<char>, Seq<char>)) -> Seq<char> {
    decimal(number) + seq!['.', ' '] + format_record(rec.0, rec.1) + seq!['\n']
}

/// The cards as one numbered list, numbered from 1 in their order.
pub open spec fn markdown_document(recs: Seq<(Seq<char>, Seq<char>)>) -> Seq<char>
    decreases recs.len(),
{
    if recs.len() == 0 {
        Seq::empty()
    } else {
        markdown_document(recs.drop_last()) + markdown_line(recs.len() as nat, recs.last())
    }
}

/// The lines of a markup deck: the `k`-th, counted from 1, holds the `k`-th card.
pub open spec fn numbered_lines(recs: Seq<(Seq<char>, Seq<char>)>) -> Seq<Seq<char>> {
    Seq::new(recs.len(), |k: int| markdown_line((k + 1) as nat, recs[k]))
}

/// Sequential numbering: the markup document of N cards is exactly the lines
/// numbered 1 through N, one per card, in the cards' order.
pub proof fn lemma_markdown_numbering(recs: Seq<(Seq<char>, Seq<char>)>)
    ensures
        markdown_document(recs) == numbered_lines(recs).flatten(),
    decreases recs.len(),
{
    if recs.len() > 0 {
        lemma_markdown_numbering(recs.drop_last());
        let lines = numbered_lines(recs);
        assert(numbered_lines(recs.drop_last()) =~= lines.drop_last());
        lines.drop_last().lemma_flatten_push(lines.last());
        assert(lines.drop_last().push(lines.last()) =~= lines);
    }
}

/// A deck to be written to a markup file.
pub struct ToMarkdownDeck {
    pub path: String,
}

pub open spec fn markdown_suffix() -> Seq<char> {
    seq!['.', 'm', 'd']
}

impl ToMarkdownDeck {
    /// The deck goes to `<deck>.md`.
    pub fn new(deck: &str) -> (r: ToMarkdownDeck)
        ensures
            r.path@ == deck@ + markdown_suffix(),
    {
        let mut path = deck.to_owned();
        path.append(".md");
        proof {
            reveal_strlit(".md");
        }
        ToMarkdownDeck { path }
    }

    /// The text of the destination file: the cards as one numbered list, line
    /// `k` holding the `k`-th card, numbered from 1. An existing destination is
    /// refused before anything else. In the prepare phase each card's text form
    /// is staged once it reads back as a card; in the commit phase each staged
    /// line becomes the next numbered line.
    pub fn write(&self, destination_exists: bool, cards: &Vec<Card>) -> (r: Result<String, DeckError>)
        ensures
            destination_exists ==> (r matches Err(DeckError::DestinationExists(p)) && p@
                == self.path@),
            !destination_exists ==> (r is Ok <==> export_records(cards@.map_values(|c: Card| c@))
                is Some),
            r matches Ok(text) ==> text@ == markdown_document(
                export_records(cards@.map_values(|c: Card| c@))->Some_0,
            ),
            !destination_exists && export_records(cards@.map_values(|c: Card| c@)) is None ==> (
            r matches Err(DeckError::InvalidRecord(t)) && t@ == first_unreadable(
                cards@.map_values(|c: Card| c@),
            )),
    {
        if destination_exists {
            return Err(DeckError::DestinationExists(self.path.clone()));
        }
        let ghost all = cards@.map_values(|c: Card| c@);
        let mut buffer = match stage_cards(cards) {
            Ok(buffer) => buffer,
            Err(e) => {
                return Err(e);
            },
        };
        let ghost recs = export_records(all)->Some_0;
        proof {
            crate::export::lemma_export_records_len(all);
        }
        let mut out = String::new();
        let n = cards.len();
        proof {
            assert(recs.subrange(0, 0) =~= Seq::<(Seq<char>, Seq<char>)>::empty());
        }
        while buffer.pending().is_some()
            invariant
                !destination_exists,
                n == cards@.len() == recs.len(),
                all == cards@.map_values(|c: Card| c@),
                export_records(all) == Some(recs),
                buffer.wf(),
                buffer.staged().len() == recs.len(),
                buffer.phase_of() == CommitPhase::Committing || buffer.phase_of()
                    == CommitPhase::Done,
                forall|k: int|
                    0 <= k < recs.len() ==> parse_record(#[trigger] buffer.staged()[k]) == Some(
                        recs[k],
                    ),
                out@ == markdown_document(recs.subrange(0, buffer.committed_count() as int)),
                buffer.phase_of() == CommitPhase::Done ==> buffer.committed_count() == recs.len(),
            decreases recs.len() - buffer.committed_count(),
        {
            let k = buffer.committed();
            let line = buffer.pending().unwrap();
            let card = match Card::from_str(line.as_str()) {
                Ok(card) => card,
                Err(e) => {
                    proof {
                        assert(parse_record(buffer.staged()[k as int]) is Some);
                    }
                    return Err(e);
                },
            };
            push_decimal(&mut out, k + 1);
            out.append(". ");
            out.append(card.to_string().as_str());
            out.append("\n");
            proof {
                reveal_strlit(". ");
                reveal_strlit("\n");
                let done = recs.subrange(0, k + 1);
                assert(done.drop_last() =~= recs.subrange(0, k as int));
                assert(done.last() == recs[k as int]);
                assert(card@ == recs[k as int]);
                assert(out@ =~= markdown_document(done));
            }
            buffer.mark_committed();
        }
        proof {
            assert(recs.subrange(0, recs.len() as int) =~= recs);
        }
        Ok(out)
    }
}

} // verus!
