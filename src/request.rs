use vstd::prelude::*;

use crate::card::Card;

verus! {

/// The version of the deck service's protocol that requests are written for.
pub const API_VERSION: u16 = 6;

/// The actions of the deck service that are used.
#[derive(Debug, Clone, Copy, PartialEq, Eq, Structural)]
pub enum ApiMethod {
    DeckNames,
    DeckNamesAndIds,
    CreateDeck,
    AddNote,
    NotesInfo,
}

#[derive(Debug, PartialEq, Eq)]
pub struct CreateDeckParams {
    pub deck: String,
}

#[derive(Debug, PartialEq, Eq)]
pub struct AddNoteParams {
    pub note: Note,
}

/// A note to add: a card in a deck, of the basic two-sided model.
#[derive(Debug, PartialEq, Eq)]
pub struct Note {
    pub deck: String,
    pub model: String,
    pub fields: InFields,
    pub options: Options,
    pub tags: Vec<String>,
}

/// The two sides of a note to add.
#[derive(Debug, PartialEq, Eq)]
pub struct InFields {
    pub front: String,
    pub back: String,
}

/// How the service treats a duplicate note.
#[derive(Debug, PartialEq, Eq)]
pub struct Options {
    pub allow_dups: bool,
    pub dup_scope: String,
    pub options: DuplicateScopeOptions,
}

#[derive(Debug, PartialEq, Eq)]
pub struct DuplicateScopeOptions {
    pub deck_name: String,
    pub check_children: bool,
    pub check_models: bool,
}

/// The notes of one deck are asked for by a search query.
#[derive(Debug, PartialEq, Eq)]
pub struct NotesInfoParams {
    pub query: String,
}

#[derive(Debug, PartialEq, Eq)]
pub enum Params {
    CreateDeck(CreateDeckParams),
    AddNote(AddNoteParams),
    NotesInfo(NotesInfoParams),
}

/// One request to the deck service.
#[derive(Debug, PartialEq, Eq)]
pub struct ApiRequest {
    pub action: ApiMethod,
    pub version: u16,
    pub params: Option<Params>,
}

pub open spec fn default_deck_name() -> Seq<char> {
    seq!['D', 'e', 'f', 'a', 'u', 'l', 't']
}

pub open spec fn basic_model_name() -> Seq<char> {
    seq!['B', 'a', 's', 'i', 'c']
}

pub open spec fn deck_scope() -> Seq<char> {
    seq!['d', 'e', 'c', 'k']
}

/// Duplicates are refused within the note's deck, the default deck being checked.
pub open spec fn is_default_options(o: Options) -> bool {
    &&& !o.allow_dups
    &&& o.dup_scope@ == deck_scope()
    &&& o.options.deck_name@ == default_deck_name()
    &&& !o.options.check_children
    &&& !o.options.check_models
}

impl Default for DuplicateScopeOptions {
    fn default() -> (r: DuplicateScopeOptions)
        ensures
            r.deck_name@ == default_deck_name(),
            !r.check_children,
            !r.check_models,
    {
        proof {
            reveal_strlit("Default");
        }
        DuplicateScopeOptions {
            deck_name: "Default".to_owned(),
            check_children: false,
            check_models: false,
        }
    }
}

impl Default for Options {
    fn default() -> (r: Options)
        ensures
            is_default_options(r),
    {
        let dup_scope = "deck".to_owned();
        let options = DuplicateScopeOptions::default();
        proof {
            reveal_strlit("deck");
            assert(dup_scope@ =~= deck_scope());
            assert(options.deck_name@ == default_deck_name());
        }
        Options { allow_dups: false, dup_scope, options }
    }
}

impl Default for InFields {
    fn default() -> (r: InFields)
        ensures
            r.front@.len() == 0,
            r.back@.len() == 0,
    {
        InFields { front: String::new(), back: String::new() }
    }
}

impl Default for Note {
    fn default() -> (r: Note)
        ensures
            r.deck@ == default_deck_name(),
            r.model@ == basic_model_name(),
            r.fields.front@.len() == 0,
            r.fields.back@.len() == 0,
            is_default_options(r.options),
            r.tags@.len() == 0,
    {
        proof {
            reveal_strlit("Default");
            reveal_strlit("Basic");
        }
        Note {
            deck: "Default".to_owned(),
            model: "Basic".to_owned(),
            fields: InFields::default(),
            options: Options::default(),
            tags: Vec::new(),
        }
    }
}

impl Note {
    /// A basic note with the two sides, to go into `deck`.
    pub fn new(deck: String, front: String, back: String) -> (r: Note)
        ensures
            r.deck@ == deck@,
            r.model@ == basic_model_name(),
            r.fields.front@ == front@,
            r.fields.back@ == back@,
            is_default_options(r.options),
            r.tags@.len() == 0,
    {
        let base = Note::default();
        Note { deck, fields: InFields { front, back }, ..base }
    }

    /// The note for a card.
    pub fn from_card(deck: String, card: Card) -> (r: Note)
        ensures
            r.deck@ == deck@,
            r.model@ == basic_model_name(),
            r.fields.front@ == card.front@,
            r.fields.back@ == card.back@,
            is_default_options(r.options),
            r.tags@.len() == 0,
    {
        Note::new(deck, card.front, card.back)
    }
}

/// The search query for the notes of a deck.
pub open spec fn deck_query(deck: Seq<char>) -> Seq<char> {
    seq!['d', 'e', 'c', 'k', ':'] + deck
}

impl NotesInfoParams {
    /// The query as the service reads it: `deck:<deck>`.
    pub fn search_query(&self) -> (r: String)
        ensures
            r@ == deck_query(self.query@),
    {
        let mut r = "deck:".to_owned();
        r.append(self.query.as_str());
        proof {
            reveal_strlit("deck:");
            assert(r@ =~= deck_query(self.query@));
        }
        r
    }
}

impl ApiRequest {
    pub fn make_deck_names_req() -> (r: ApiRequest)
        ensures
            r.action == ApiMethod::DeckNames,
            r.version == API_VERSION,
            r.params is None,
    {
        ApiRequest { action: ApiMethod::DeckNames, version: API_VERSION, params: None }
    }

    pub fn make_deck_names_and_ids_req() -> (r: ApiRequest)
        ensures
            r.action == ApiMethod::DeckNamesAndIds,
            r.version == API_VERSION,
            r.params is None,
    {
        ApiRequest { action: ApiMethod::DeckNamesAndIds, version: API_VERSION, params: None }
    }

    pub fn make_create_deck_req(deck: &str) -> (r: ApiRequest)
        ensures
            r.action == ApiMethod::CreateDeck,
            r.version == API_VERSION,
            r.params matches Some(Params::CreateDeck(p)) && p.deck@ == deck@,
    {
        ApiRequest {
            action: ApiMethod::CreateDeck,
            version: API_VERSION,
            params: Some(Params::CreateDeck(CreateDeckParams { deck: deck.to_owned() })),
        }
    }

    pub fn make_add_note_req(note: Note) -> (r: ApiRequest)
        ensures
            r.action == ApiMethod::AddNote,
            r.version == API_VERSION,
            r.params == Some(Params::AddNote(AddNoteParams { note })),
    {
        ApiRequest {
            action: ApiMethod::AddNote,
            version: API_VERSION,
            params: Some(Params::AddNote(AddNoteParams { note })),
        }
    }

    pub fn make_notes_info_req(deck: &str) -> (r: ApiRequest)
        ensures
            r.action == ApiMethod::NotesInfo,
            r.version == API_VERSION,
            r.params matches Some(Params::NotesInfo(p)) && p.query@ == deck@,
    {
        ApiRequest {
            action: ApiMethod::NotesInfo,
            version: API_VERSION,
            params: Some(Params::NotesInfo(NotesInfoParams { query: deck.to_owned() })),
        }
    }
}

} // verus!
