use vstd::prelude::*;

use std::collections::HashMap;

use crate::card::Card;
use crate::error::DeckError;

verus! {

/// The result part of an answer of the deck service.
#[derive(Debug, PartialEq, Eq)]
pub enum ApiResponseData {
    Names(Vec<String>),
    NamesAndIds(HashMap<String, u64>),
    Id(u64),
    NotesInfo(Vec<NotesInfoResponseData>),
}

impl ApiResponseData {
    pub fn into_names_res(self) -> (r: Option<Vec<String>>)
        ensures
            self matches ApiResponseData::Names(n) ==> r == Some(n),
            !(self is Names) ==> r is None,
    {
        match self {
            ApiResponseData::Names(names) => Some(names),
            _ => None,
        }
    }

    pub fn into_names_and_ids_res(self) -> (r: Option<HashMap<String, u64>>)
        ensures
            self matches ApiResponseData::NamesAndIds(m) ==> r == Some(m),
            !(self is NamesAndIds) ==> r is None,
    {
        match self {
            ApiResponseData::NamesAndIds(map) => Some(map),
            _ => None,
        }
    }

    pub fn into_id_res(self) -> (r: Option<u64>)
        ensures
            self matches ApiResponseData::Id(id) ==> r == Some(id),
            !(self is Id) ==> r is None,
    {
        match self {
            ApiResponseData::Id(id) => Some(id),
            _ => None,
        }
    }

    pub fn into_notes_info_res(self) -> (r: Option<Vec<NotesInfoResponseData>>)
        ensures
            self matches ApiResponseData::NotesInfo(n) ==> r == Some(n),
            !(self is NotesInfo) ==> r is None,
    {
        match self {
            ApiResponseData::NotesInfo(notes) => Some(notes),
            _ => None,
        }
    }
}

/// One note of a deck as the service describes it.
#[derive(Debug, PartialEq, Eq)]
pub struct NotesInfoResponseData {
    pub note_id: u64,
    pub profile: String,
    pub tags: Vec<String>,
    pub fields: OutFields,
    pub model_name: String,
    pub mod_data: u64,
    pub cards: Vec<u64>,
}

/// The two sides of a described note.
#[derive(Debug, PartialEq, Eq)]
pub struct OutFields {
    pub front: Data,
    pub back: Data,
}

/// One side of a described note: its text and its place among the fields.
#[derive(Debug, PartialEq, Eq)]
pub struct Data {
    pub value: String,
    pub order: u16,
}

impl Default for Data {
    fn default() -> (r: Data)
        ensures
            r.value@.len() == 0,
            r.order == 0,
    {
        Data { value: String::new(), order: 0 }
    }
}

impl Default for OutFields {
    fn default() -> (r: OutFields)
        ensures
            r.front.value@.len() == 0,
            r.front.order == 0,
            r.back.value@.len() == 0,
            r.back.order == 0,
    {
        OutFields { front: Data::default(), back: Data::default() }
    }
}

impl Default for NotesInfoResponseData {
    fn default() -> (r: NotesInfoResponseData)
        ensures
            r.note_id == 0,
            r.profile@.len() == 0,
            r.tags@.len() == 0,
            r.fields.front.value@.len() == 0,
            r.fields.back.value@.len() == 0,
            r.model_name@.len() == 0,
            r.mod_data == 0,
            r.cards@.len() == 0,
    {
        NotesInfoResponseData {
            note_id: 0,
            profile: String::new(),
            tags: Vec::new(),
            fields: OutFields::default(),
            model_name: String::new(),
            mod_data: 0,
            cards: Vec::new(),
        }
    }
}

impl NotesInfoResponseData {
    /// A described note with the two sides and nothing else set.
    pub fn new_simple(front: &str, back: &str) -> (r: NotesInfoResponseData)
        ensures
            r.note_id == 0,
            r.fields.front.value@ == front@,
            r.fields.front.order == 0,
            r.fields.back.value@ == back@,
            r.fields.back.order == 0,
            r.profile@.len() == 0,
            r.tags@.len() == 0,
            r.model_name@.len() == 0,
            r.mod_data == 0,
            r.cards@.len() == 0,
    {
        let base = NotesInfoResponseData::default();
        NotesInfoResponseData {
            fields: OutFields {
                front: Data { value: front.to_owned(), order: 0 },
                back: Data { value: back.to_owned(), order: 0 },
            },
            ..base
        }
    }

    pub fn with_id(self, id: u64) -> (r: NotesInfoResponseData)
        ensures
            r == (NotesInfoResponseData { note_id: id, ..self }),
    {
        let mut r = self;
        r.note_id = id;
        r
    }

    /// The card that the note holds.
    pub fn into_card(self) -> (r: Card)
        ensures
            r.front == self.fields.front.value,
            r.back == self.fields.back.value,
    {
        Card { front: self.fields.front.value, back: self.fields.back.value }
    }
}

/// One answer of the deck service: an error, a result, or, wrongly, neither.
#[derive(Debug, PartialEq, Eq)]
pub struct ApiResponse {
    pub error: Option<String>,
    pub result: Option<ApiResponseData>,
}

impl ApiResponse {
    /// The result, unless the answer holds an error, which wins; an answer with
    /// neither is an error too.
    pub fn into_result(self) -> (r: Result<ApiResponseData, DeckError>)
        ensures
            self.error matches Some(m) ==> (r matches Err(DeckError::Service(e)) && e == m),
            self.error is None && self.result is Some ==> r == Ok::<ApiResponseData, DeckError>(
                self.result->Some_0,
            ),
            self.error is None && self.result is None ==> r == Err::<ApiResponseData, DeckError>(
                DeckError::EmptyResponse,
            ),
    {
        match (self.error, self.result) {
            (Some(error), _) => Err(DeckError::Service(error)),
            (None, Some(result)) => Ok(result),
            _ => Err(DeckError::EmptyResponse),
        }
    }

    pub fn as_error(error: String) -> (r: ApiResponse)
        ensures
            r.error == Some(error),
            r.result is None,
    {
        ApiResponse { error: Some(error), result: None }
    }

    pub fn as_success(result: ApiResponseData) -> (r: ApiResponse)
        ensures
            r.error is None,
            r.result == Some(result),
    {
        ApiResponse { error: None, result: Some(result) }
    }

    pub fn with_names_ok_res(res: Vec<String>) -> (r: ApiResponse)
        ensures
            r.error is None,
            r.result == Some(ApiResponseData::Names(res)),
    {
        ApiResponse::as_success(ApiResponseData::Names(res))
    }

    pub fn with_names_and_ids_ok_res(res: HashMap<String, u64>) -> (r: ApiResponse)
        ensures
            r.error is None,
            r.result == Some(ApiResponseData::NamesAndIds(res)),
    {
        ApiResponse::as_success(ApiResponseData::NamesAndIds(res))
    }

    pub fn with_id_ok_res(res: u64) -> (r: ApiResponse)
        ensures
            r.error is None,
            r.result == Some(ApiResponseData::Id(res)),
    {
        ApiResponse::as_success(ApiResponseData::Id(res))
    }

    pub fn with_notes_info_ok_res(res: Vec<NotesInfoResponseData>) -> (r: ApiResponse)
        ensures
            r.error is None,
            r.result == Some(ApiResponseData::NotesInfo(res)),
    {
        ApiResponse::as_success(ApiResponseData::NotesInfo(res))
    }

    /// The deck names that the answer holds.
    pub fn into_deck_names(self) -> (r: Result<Vec<String>, DeckError>)
        ensures
            self.error matches Some(m) ==> (r matches Err(DeckError::Service(e)) && e == m),
            self.error is None && self.result is None ==> r == Err::<Vec<String>, DeckError>(
                DeckError::EmptyResponse,
            ),
            self.error is None ==> (self.result matches Some(ApiResponseData::Names(n)) ==> r
                == Ok::<Vec<String>, DeckError>(n)),
            self.error is None ==> (self.result matches Some(d) ==> (!(d is Names) ==> r == Err::<
                Vec<String>,
                DeckError,
            >(DeckError::NoResult))),
    {
        match self.into_result() {
            Ok(data) => match data.into_names_res() {
                Some(names) => Ok(names),
                None => Err(DeckError::NoResult),
            },
            Err(e) => Err(e),
        }
    }

    /// The id that the answer holds.
    pub fn into_id(self) -> (r: Result<u64, DeckError>)
        ensures
            self.error matches Some(m) ==> (r matches Err(DeckError::Service(e)) && e == m),
            self.error is None && self.result is None ==> r == Err::<u64, DeckError>(
                DeckError::EmptyResponse,
            ),
            self.error is None ==> (self.result matches Some(ApiResponseData::Id(id)) ==> r
                == Ok::<u64, DeckError>(id)),
            self.error is None ==> (self.result matches Some(d) ==> (!(d is Id) ==> r == Err::<
                u64,
                DeckError,
            >(DeckError::NoResult))),
    {
        match self.into_result() {
            Ok(data) => match data.into_id_res() {
                Some(id) => Ok(id),
                None => Err(DeckError::NoResult),
            },
            Err(e) => Err(e),
        }
    }

    /// The cards of the notes that the answer describes, in the answer's order.
    pub fn into_cards(self) -> (r: Result<Vec<Card>, DeckError>)
        ensures
            self.error matches Some(m) ==> (r matches Err(DeckError::Service(e)) && e == m),
            self.error is None && self.result is None ==> r == Err::<Vec<Card>, DeckError>(
                DeckError::EmptyResponse,
            ),
            self.error is None ==> (self.result matches Some(d) ==> (!(d is NotesInfo) ==> r
                == Err::<Vec<Card>, DeckError>(DeckError::NoResult))),
            self.error is None ==> (self.result matches Some(ApiResponseData::NotesInfo(n)) ==> (
            r matches Ok(cards) && cards@.len() == n@.len() && forall|k: int|
                0 <= k < n@.len() ==> #[trigger] cards@[k].front == n@[k].fields.front.value
                    && cards@[k].back == n@[k].fields.back.value)),
    {
        match self.into_result() {
            Ok(data) => match data.into_notes_info_res() {
                Some(notes) => Ok(cards_of_notes(notes)),
                None => Err(DeckError::NoResult),
            },
            Err(e) => Err(e),
        }
    }
}

/// The card of each note, in order.
pub fn cards_of_notes(notes: Vec<NotesInfoResponseData>) -> (r: Vec<Card>)
    ensures
        r@.len() == notes@.len(),
        forall|k: int|
            0 <= k < notes@.len() ==> #[trigger] r@[k].front == notes@[k].fields.front.value
                && r@[k].back == notes@[k].fields.back.value,
{
    let ghost orig = notes@;
    let mut notes = notes;
    let mut reversed: Vec<Card> = Vec::new();
    while notes.len() > 0
        invariant
            reversed@.len() + notes@.len() == orig.len(),
            notes@ == orig.subrange(0, notes@.len() as int),
            forall|j: int|
                0 <= j < reversed@.len() ==> #[trigger] reversed@[j].front == orig[orig.len() - 1
                    - j].fields.front.value && reversed@[j].back == orig[orig.len() - 1
                    - j].fields.back.value,
        decreases notes@.len(),
    {
        let note = notes.pop().unwrap();
        proof {
            assert(notes@ =~= orig.subrange(0, notes@.len() as int));
        }
        reversed.push(note.into_card());
    }
    let ghost rev = reversed@;
    let mut cards: Vec<Card> = Vec::new();
    while reversed.len() > 0
        invariant
            cards@.len() + reversed@.len() == orig.len() == rev.len(),
            reversed@ == rev.subrange(0, reversed@.len() as int),
            forall|j: int|
                0 <= j < rev.len() ==> #[trigger] rev[j].front == orig[orig.len() - 1
                    - j].fields.front.value && rev[j].back == orig[orig.len() - 1
                    - j].fields.back.value,
            forall|k: int|
                0 <= k < cards@.len() ==> #[trigger] cards@[k].front == orig[k].fields.front.value
                    && cards@[k].back == orig[k].fields.back.value,
        decreases reversed@.len(),
    {
        let card = reversed.pop().unwrap();
        proof {
            assert(reversed@ =~= rev.subrange(0, reversed@.len() as int));
            let j = reversed@.len() as int;
            assert(card == rev[j]);
            assert(orig.len() - 1 - j == cards@.len());
        }
        cards.push(card);
    }
    cards
}

/// Whether the deck is among the names.
pub fn deck_listed(names: &Vec<String>, deck: &str) -> (r: bool)
    ensures
        r == exists|k: int| 0 <= k < names@.len() && #[trigger] names@[k]@ == deck@,
{
    let wanted = deck.to_owned();
    let mut i: usize = 0;
    while i < names.len()
        invariant
            wanted@ == deck@,
            i <= names@.len(),
            forall|k: int| 0 <= k < i ==> #[trigger] names@[k]@ != deck@,
        decreases names@.len() - i,
    {
        if names[i] == wanted {
            assert(names@[i as int]@ == deck@);
            return true;
        }
        i = i + 1;
    }
    false
}

} // verus!
