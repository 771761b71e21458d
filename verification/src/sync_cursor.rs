//! Sync cursor advance rule: the next `last_synced` value for a peer and
//! table follows the rows exchanged, never the wall clock.

use vstd::prelude::*;
use crate::text::{chars_lt, chars_of, lemma_lt_total, lemma_not_lt_transitive, seq_le, seq_lt};

verus! {

pub open spec fn opt_str_view(o: Option<&str>) -> Option<Seq<char>> {
    match o {
        Some(s) => Some(s@),
        None => None,
    }
}

pub open spec fn opt_string_view(o: Option<String>) -> Option<Seq<char>> {
    match o {
        Some(s) => Some(s@),
        None => None,
    }
}

/// The larger of the exported and applied maxima, if any.
pub open spec fn cursor_candidate(exported: Option<Seq<char>>, applied: Option<Seq<char>>) -> Option<Seq<char>> {
    match (exported, applied) {
        (Some(a), Some(b)) => Some(if !seq_lt(a, b) { a } else { b }),
        (Some(a), None) => Some(a),
        (None, Some(b)) => Some(b),
        (None, None) => None,
    }
}

/// The next cursor: the candidate capped at the round start, else the
/// previous cursor, and never below the previous cursor.
pub open spec fn next_cursor(
    prev: Option<Seq<char>>,
    exported: Option<Seq<char>>,
    applied: Option<Seq<char>>,
    round_start: Seq<char>,
) -> Option<Seq<char>> {
    let capped = match cursor_candidate(exported, applied) {
        Some(c) => Some(if seq_lt(c, round_start) { c } else { round_start }),
        None => None,
    };
    let advanced = match capped {
        Some(c) => Some(c),
        None => prev,
    };
    match (advanced, prev) {
        (Some(a), Some(p)) => if seq_lt(a, p) { Some(p) } else { Some(a) },
        (a, _) => a,
    }
}

/// Compute the next `last_synced` value for a peer+table pair.
///
/// 1. Advance to `MAX(exported_max, applied_max)`, never wall-clock.
/// 2. Cap at `round_start_at` so a future-skewed row cannot poison the cursor.
/// 3. Never move the cursor backwards against `prev_since`.
/// 4. If nothing was exchanged, stay at `prev_since`; `None` when there is
///    neither, and the caller then writes nothing.
pub fn compute_new_cursor(
    prev_since: Option<&str>,
    exported_max: Option<&str>,
    applied_max: Option<&str>,
    round_start_at: &str,
) -> (r: Option<String>)
    ensures
        opt_string_view(r) == next_cursor(
            opt_str_view(prev_since),
            opt_str_view(exported_max),
            opt_str_view(applied_max),
            round_start_at@,
        ),
{
    let candidate: Option<&str> = match (exported_max, applied_max) {
        (Some(a), Some(b)) => {
            if !chars_lt(&chars_of(a), &chars_of(b)) {
                Some(a)
            } else {
                Some(b)
            }
        },
        (Some(a), None) => Some(a),
        (None, Some(b)) => Some(b),
        (None, None) => None,
    };
    let capped: Option<String> = match candidate {
        Some(c) => {
            if chars_lt(&chars_of(c), &chars_of(round_start_at)) {
                Some(c.to_owned())
            } else {
                Some(round_start_at.to_owned())
            }
        },
        None => None,
    };
    let advanced: Option<String> = match capped {
        Some(c) => Some(c),
        None => match prev_since {
            Some(p) => Some(p.to_owned()),
            None => None,
        },
    };
    match (advanced, prev_since) {
        (Some(a), Some(p)) => {
            if chars_lt(&chars_of(a.as_str()), &chars_of(p)) {
                Some(p.to_owned())
            } else {
                Some(a)
            }
        },
        (a, _) => a,
    }
}

/// The cursor never moves backwards; it is `None` only when there was no
/// previous cursor and nothing was exchanged; and it is the previous cursor,
/// an exchanged maximum, or the round start: never any other time.
pub proof fn lemma_cursor_laws(
    prev: Option<Seq<char>>,
    exported: Option<Seq<char>>,
    applied: Option<Seq<char>>,
    round_start: Seq<char>,
)
    ensures
        prev is Some ==> next_cursor(prev, exported, applied, round_start) is Some && seq_le(
            prev->Some_0,
            next_cursor(prev, exported, applied, round_start)->Some_0,
        ),
        next_cursor(prev, exported, applied, round_start) is None <==> (prev is None
            && exported is None && applied is None),
        next_cursor(prev, exported, applied, round_start) is Some ==> ({
            let r = next_cursor(prev, exported, applied, round_start)->Some_0;
            Some(r) == prev || Some(r) == exported || Some(r) == applied || r == round_start
        }),
        next_cursor(prev, exported, applied, round_start) is Some ==> ({
            let r = next_cursor(prev, exported, applied, round_start)->Some_0;
            Some(r) == prev || seq_le(r, round_start)
        }),
{
    let r = next_cursor(prev, exported, applied, round_start);
    if prev is Some && r is Some {
        let p = prev->Some_0;
        let x = r->Some_0;
        lemma_lt_total(p, x);
    }
}

/// With both maxima given, the candidate is the larger of the two: one of
/// them, and below neither.
pub proof fn lemma_candidate_is_larger(a: Seq<char>, b: Seq<char>)
    ensures
        cursor_candidate(Some(a), Some(b)) is Some,
        ({
            let c = cursor_candidate(Some(a), Some(b))->Some_0;
            &&& !seq_lt(c, a)
            &&& !seq_lt(c, b)
            &&& (c == a || c == b)
        }),
{
    lemma_lt_total(a, b);
    crate::text::lemma_lt_irreflexive(a);
    crate::text::lemma_lt_irreflexive(b);
    if seq_lt(a, b) {
        crate::text::lemma_lt_asymmetric(a, b);
    }
}

/// The cursor covers what was exchanged: it is not below the exported
/// maximum nor the applied maximum, unless it has reached the round start.
pub proof fn lemma_cursor_covers_exchanged(
    prev: Option<Seq<char>>,
    exported: Option<Seq<char>>,
    applied: Option<Seq<char>>,
    round_start: Seq<char>,
)
    ensures
        next_cursor(prev, exported, applied, round_start) is Some ==> ({
            let r = next_cursor(prev, exported, applied, round_start)->Some_0;
            &&& (exported matches Some(a) ==> !seq_lt(r, a) || !seq_lt(r, round_start))
            &&& (applied matches Some(b) ==> !seq_lt(r, b) || !seq_lt(r, round_start))
        }),
{
    let cand = cursor_candidate(exported, applied);
    if let Some(c) = cand {
        // the candidate is below neither maximum
        match (exported, applied) {
            (Some(a), Some(b)) => lemma_candidate_is_larger(a, b),
            (Some(a), None) => crate::text::lemma_lt_irreflexive(a),
            (None, Some(b)) => crate::text::lemma_lt_irreflexive(b),
            _ => {},
        }
        let capped = if seq_lt(c, round_start) { c } else { round_start };
        crate::text::lemma_lt_irreflexive(capped);
        let r = next_cursor(prev, exported, applied, round_start)->Some_0;
        // the result is not below the capped candidate
        assert(!seq_lt(r, capped)) by {
            if let Some(p) = prev {
                if seq_lt(capped, p) {
                    crate::text::lemma_lt_asymmetric(capped, p);
                }
            }
        }
        if seq_lt(c, round_start) {
            if let Some(a) = exported {
                lemma_not_lt_transitive(r, c, a);
            }
            if let Some(b) = applied {
                lemma_not_lt_transitive(r, c, b);
            }
        }
    }
}

} // verus!
