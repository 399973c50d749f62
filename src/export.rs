use vstd::prelude::*;

use crate::card::{format_record, parse_record, Card};
use crate::commit::{CommitPhase, FileCommitBuffer};
use crate::error::DeckError;

verus! {

/// Each card's text form read back as a card, or `None` when one of them
/// cannot be.
pub open spec fn export_records(cards: Seq<(Seq<char>, Seq<char>)>) -> Option<
    Seq<(Seq<char>, Seq<char>)>,
>
    decreases cards.len(),
{
    if cards.len() == 0 {
        Some(Seq::empty())
    } else {
        match (parse_record(format_record(cards[0].0, cards[0].1)), export_records(cards.drop_first())) {
            (Some(c), Some(rest)) => Some(seq![c] + rest),
            _ => None,
        }
    }
}

/// The text form of the first card that cannot be read back.
pub open spec fn first_unreadable(cards: Seq<(Seq<char>, Seq<char>)>) -> Seq<char>
    decreases cards.len(),
{
    if cards.len() == 0 {
        Seq::empty()
    } else if parse_record(format_record(cards[0].0, cards[0].1)) is None {
        format_record(cards[0].0, cards[0].1)
    } else {
        first_unreadable(cards.drop_first())
    }
}

pub proof fn lemma_export_records_len(cards: Seq<(Seq<char>, Seq<char>)>)
    requires
        export_records(cards) is Some,
    ensures
        export_records(cards)->Some_0.len() == cards.len(),
    decreases cards.len(),
{
    if cards.len() > 0 {
        lemma_export_records_len(cards.drop_first());
    }
}

/// The prepare phase of an export: each card's text form is staged once it
/// reads back as a card. The buffer comes back, ready to commit, only when every
/// card does; otherwise the error names the text of the first that does not.
pub fn stage_cards(cards: &Vec<Card>) -> (r: Result<FileCommitBuffer, DeckError>)
    ensures
        r is Ok <==> export_records(cards@.map_values(|c: Card| c@)) is Some,
        r matches Ok(b) ==> {
            &&& b.wf()
            &&& b.committed_count() == 0
            &&& b.staged().len() == cards@.len()
            &&& b.phase_of() == if cards@.len() == 0 {
                CommitPhase::Done
            } else {
                CommitPhase::Committing
            }
            &&& forall|k: int|
                0 <= k < cards@.len() ==> #[trigger] b.staged()[k] == format_record(
                    cards@[k].front@,
                    cards@[k].back@,
                ) && parse_record(b.staged()[k]) == Some(
                    export_records(cards@.map_values(|c: Card| c@))->Some_0[k],
                )
        },
        r matches Err(e) ==> (e matches DeckError::InvalidRecord(t) && t@ == first_unreadable(
            cards@.map_values(|c: Card| c@),
        )),
{
    let ghost all = cards@.map_values(|c: Card| c@);
    let mut buffer = FileCommitBuffer::new();
    let ghost mut recs: Seq<(Seq<char>, Seq<char>)> = Seq::empty();
    let mut i: usize = 0;
    proof {
        assert(all.subrange(0, all.len() as int) =~= all);
        if let Some(rest) = export_records(all) {
            assert(recs + rest =~= rest);
        }
    }
    while i < cards.len()
        invariant
            all == cards@.map_values(|c: Card| c@),
            i <= cards@.len(),
            buffer.wf(),
            buffer.phase_of() == CommitPhase::Preparing,
            buffer.committed_count() == 0,
            buffer.staged().len() == i,
            recs.len() == i,
            forall|k: int|
                0 <= k < i ==> #[trigger] buffer.staged()[k] == format_record(
                    cards@[k].front@,
                    cards@[k].back@,
                ) && parse_record(buffer.staged()[k]) == Some(recs[k]),
            export_records(all) == match export_records(all.subrange(i as int, all.len() as int)) {
                Some(rest) => Some(recs + rest),
                None => None,
            },
            first_unreadable(all) == first_unreadable(all.subrange(i as int, all.len() as int)),
        decreases cards@.len() - i,
    {
        let ghost rest = all.subrange(i as int, all.len() as int);
        let line = cards[i].to_string();
        assert(rest[0] == cards@[i as int]@);
        assert(rest.drop_first() =~= all.subrange(i + 1, all.len() as int));
        match Card::from_str(line.as_str()) {
            Ok(card) => {
                let ghost c = card@;
                buffer.stage(line);
                proof {
                    let prev = recs;
                    recs = recs.push(c);
                    if let Some(tail) = export_records(rest.drop_first()) {
                        assert(export_records(rest) == Some(seq![c] + tail));
                        assert(prev + (seq![c] + tail) =~= recs + tail);
                    }
                }
            },
            Err(e) => {
                assert(export_records(rest) is None);
                assert(first_unreadable(rest) == line@);
                buffer.fail();
                return Err(e);
            },
        }
        i = i + 1;
    }
    proof {
        assert(all.subrange(i as int, all.len() as int) =~= Seq::<
            (Seq<char>, Seq<char>),
        >::empty());
        assert(recs + Seq::empty() =~= recs);
    }
    buffer.seal();
    Ok(buffer)
}

} // verus!
