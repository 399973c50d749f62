use vstd::prelude::*;

use crate::error::DeckError;
use crate::text::{all_white, chars_of, is_white, trim, trim_bounds, trim_end, trim_start};
use crate::text::{lemma_trim_end_skip, lemma_trim_start_skip};

verus! {

/// One flash card: a question and its answer.
#[derive(Debug, Clone, PartialEq, Eq)]
pub struct Card {
    pub front: String,
    pub back: String,
}

impl View for Card {
    type V = (Seq<char>, Seq<char>);

    open spec fn view(&self) -> (Seq<char>, Seq<char>) {
        (self.front@, self.back@)
    }
}

/// What stands between the two sides in the text form of a card.
pub open spec fn separator() -> Seq<char> {
    seq![' ', '-', ' ']
}

/// The text form of a card: `front - back`.
pub open spec fn format_record(front: Seq<char>, back: Seq<char>) -> Seq<char> {
    front + separator() + back
}

/// `d` is the position of the first `-` in `s`.
pub open spec fn is_first_dash(s: Seq<char>, d: int) -> bool {
    &&& 0 <= d < s.len()
    &&& s[d] == '-'
    &&& forall|k: int| 0 <= k < d ==> s[k] != '-'
}

/// The text holds a `-`, and once trimmed it neither starts nor ends with one.
pub open spec fn is_record_text(s: Seq<char>) -> bool {
    &&& s.contains('-')
    &&& trim(s)[0] != '-'
    &&& trim(s).last() != '-'
}

/// The card that a text stands for: split at the first `-`, both sides trimmed.
pub open spec fn parse_record(s: Seq<char>) -> Option<(Seq<char>, Seq<char>)> {
    if is_record_text(s) {
        let d = choose|d: int| is_first_dash(s, d);
        Some((trim(s.subrange(0, d)), trim(s.subrange(d + 1, s.len() as int))))
    } else {
        None
    }
}

pub proof fn lemma_first_dash_unique(s: Seq<char>, a: int, b: int)
    requires
        is_first_dash(s, a),
        is_first_dash(s, b),
    ensures
        a == b,
{
    if a < b {
        assert(s[a] != '-');
    } else if b < a {
        assert(s[b] != '-');
    }
}

proof fn lemma_trim_start_len(s: Seq<char>)
    ensures
        trim_start(s).len() <= s.len(),
        trim_start(s).len() == s.len() ==> trim_start(s) == s,
    decreases s.len(),
{
    if s.len() > 0 && is_white(s[0]) {
        lemma_trim_start_len(s.drop_first());
    }
}

proof fn lemma_trim_end_len(s: Seq<char>)
    ensures
        trim_end(s).len() <= s.len(),
        trim_end(s).len() == s.len() ==> trim_end(s) == s,
    decreases s.len(),
{
    if s.len() > 0 && is_white(s.last()) {
        lemma_trim_end_len(s.drop_last());
    }
}

/// A non-empty text that trimming leaves as it is has no white space at either end.
proof fn lemma_trimmed_ends(s: Seq<char>)
    requires
        s.len() > 0,
        trim(s) == s,
    ensures
        !is_white(s[0]),
        !is_white(s.last()),
        trim_start(s) == s,
        trim_end(s) == s,
{
    lemma_trim_start_len(s);
    lemma_trim_end_len(trim_start(s));
    if is_white(s[0]) {
        lemma_trim_start_len(s.drop_first());
    }
    assert(trim_start(s) == s);
    if is_white(s.last()) {
        lemma_trim_end_len(s.drop_last());
    }
}

/// A card whose front has no `-`, whose sides are trimmed and non-empty, and whose
/// back does not end in `-`, is read back from its text form unchanged.
pub proof fn lemma_canonical_round_trip(front: Seq<char>, back: Seq<char>)
    requires
        !front.contains('-'),
        front.len() > 0,
        back.len() > 0,
        trim(front) == front,
        trim(back) == back,
        back.last() != '-',
    ensures
        parse_record(format_record(front, back)) == Some((front, back)),
{
    let s = format_record(front, back);
    let d = front.len() as int + 1;
    lemma_trimmed_ends(front);
    lemma_trimmed_ends(back);
    assert(s[d] == '-');
    assert forall|k: int| 0 <= k < d implies s[k] != '-' by {
        if k < front.len() {
            assert(s[k] == front[k]);
        }
    }
    assert(is_first_dash(s, d));
    assert(s[0] == front[0]);
    assert(s.last() == back.last());
    assert(trim_start(s) == s);
    assert(trim_end(s) == s);
    assert(trim(s) == s);
    assert(s.contains('-'));
    assert(front[0] != '-');
    let d2 = choose|d2: int| is_first_dash(s, d2);
    lemma_first_dash_unique(s, d, d2);
    // the front side: `front` followed by one space
    let f = s.subrange(0, d);
    assert(f.subrange(0, front.len() as int) =~= front);
    assert(is_white(f[front.len() as int]));
    assert(trim_start(f) == f);
    lemma_trim_end_skip(f, front.len() as int);
    assert(trim(f) == front);
    // the back side: one space followed by `back`
    let b = s.subrange(d + 1, s.len() as int);
    assert(is_white(b[0]));
    lemma_trim_start_skip(b, 1);
    assert(b.subrange(1, b.len() as int) =~= back);
    assert(trim(b) == back);
}

/// Round trip of the text form: a card whose sides hold no `-`, are non-empty
/// and carry no white space at their ends is read back from `front - back`
/// unchanged.
pub proof fn lemma_record_round_trip(front: Seq<char>, back: Seq<char>)
    requires
        !front.contains('-'),
        !back.contains('-'),
        front.len() > 0,
        back.len() > 0,
        trim(front) == front,
        trim(back) == back,
    ensures
        parse_record(format_record(front, back)) == Some((front, back)),
{
    assert(back.last() != '-') by {
        if back.last() == '-' {
            assert(back[back.len() - 1] == '-');
        }
    }
    lemma_canonical_round_trip(front, back);
}

impl Card {
    /// Reads `front - back`: the text is split at its first `-` and both sides
    /// are trimmed. Fails when the text has no `-`, or when, trimmed, it starts
    /// or ends with one.
    pub fn from_str(s: &str) -> (r: Result<Card, DeckError>)
        ensures
            r is Ok <==> parse_record(s@) is Some,
            r matches Ok(c) ==> Some(c@) == parse_record(s@),
            r matches Err(e) ==> e matches DeckError::InvalidRecord(t) && t@ == s@,
    {
        let v = chars_of(s);
        let n = v.len();
        let (lo, hi) = trim_bounds(&v, 0, n);
        proof {
            assert(v@.subrange(0, n as int) =~= v@);
        }
        let mut d: usize = 0;
        while d < n && v[d] != '-'
            invariant
                d <= n == v@.len(),
                forall|k: int| 0 <= k < d ==> v@[k] != '-',
            decreases n - d,
        {
            d = d + 1;
        }
        if d == n {
            proof {
                assert(!v@.contains('-'));
            }
            return Err(DeckError::InvalidRecord(s.to_owned()));
        }
        proof {
            assert(is_first_dash(v@, d as int));
            assert(v@.contains('-'));
            if lo == hi {
                assert(all_white(v@.subrange(0, n as int)));
                assert(v@.subrange(0, n as int)[d as int] == v@[d as int]);
            }
            assert(trim(v@)[0] == v@[lo as int]);
            assert(trim(v@).last() == v@[hi - 1]);
        }
        if v[lo] == '-' || v[hi - 1] == '-' {
            return Err(DeckError::InvalidRecord(s.to_owned()));
        }
        let (f0, f1) = trim_bounds(&v, 0, d);
        let (b0, b1) = trim_bounds(&v, d + 1, n);
        let front = s.substring_char(f0, f1).to_owned();
        let back = s.substring_char(b0, b1).to_owned();
        proof {
            let c = choose|c: int| is_first_dash(v@, c);
            lemma_first_dash_unique(v@, d as int, c);
        }
        Ok(Card { front, back })
    }

    /// The text form `front - back`.
    pub fn to_string(&self) -> (r: String)
        ensures
            r@ == format_record(self.front@, self.back@),
    {
        let mut r = self.front.clone();
        r.append(" - ");
        r.append(self.back.as_str());
        proof {
            reveal_strlit(" - ");
            assert(r@ =~= format_record(self.front@, self.back@));
        }
        r
    }
}

impl Default for Card {
    fn default() -> (r: Card)
        ensures
            r.front@ == Seq::<char>::empty(),
            r.back@ == Seq::<char>::empty(),
    {
        Card { front: String::new(), back: String::new() }
    }
}

} // verus!
