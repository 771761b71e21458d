//! Convergence checks: a checksum of this node's replicated state, built
//! from the row counts per status of the main tables.

use vstd::prelude::*;
use crate::codec::{hex_encode, hex_lower, sha256, sha256_spec};
use crate::numtext::{i64_text, int_text};
use crate::text::{extend_str, string_of};
use vstd::string::StrSliceExecFns;
use vstd::utf8::encode_utf8;

verus! {

/// A peer whose checksum has differed for longer than this many seconds
/// has diverged.
pub const DRIFT_THRESHOLD_SECS: i64 = 300;

/// The tables whose status counts make up the state checksum, in order.
pub const CHECKSUM_TABLES: [&'static str; 3] = ["plans", "tasks", "waves"];

pub type StatusCounts = Seq<(Seq<char>, i64)>;

/// `status=count;` for each status group, in order.
pub open spec fn counts_text(rows: StatusCounts) -> Seq<char>
    decreases rows.len(),
{
    if rows.len() == 0 {
        Seq::empty()
    } else {
        counts_text(rows.drop_last()) + rows.last().0 + "="@ + int_text(rows.last().1 as int) + ";"@
    }
}

/// `table:` then its status counts, then `|`, for each table in order.
pub open spec fn checksum_text(sections: Seq<(Seq<char>, StatusCounts)>) -> Seq<char>
    decreases sections.len(),
{
    if sections.len() == 0 {
        Seq::empty()
    } else {
        checksum_text(sections.drop_last()) + sections.last().0 + ":"@ + counts_text(sections.last().1) + "|"@
    }
}

pub open spec fn counts_view(v: Seq<(String, i64)>) -> StatusCounts {
    v.map_values(|e: (String, i64)| (e.0@, e.1))
}

pub open spec fn sections_view(v: Seq<(String, Vec<(String, i64)>)>) -> Seq<(Seq<char>, StatusCounts)> {
    v.map_values(|e: (String, Vec<(String, i64)>)| (e.0@, counts_view(e.1@)))
}

fn push_counts(out: &mut Vec<char>, rows: &Vec<(String, i64)>)
    ensures
        final(out)@ == old(out)@ + counts_text(counts_view(rows@)),
{
    let ghost start = out@;
    let ghost cv = counts_view(rows@);
    let mut i: usize = 0;
    assert(cv.take(0) =~= Seq::<(Seq<char>, i64)>::empty());
    assert(out@ =~= start + counts_text(cv.take(0)));
    while i < rows.len()
        invariant
            i <= rows@.len(),
            cv == counts_view(rows@),
            out@ == start + counts_text(cv.take(i as int)),
        decreases rows.len() - i,
    {
        assert(cv.take(i + 1).drop_last() == cv.take(i as int));
        assert(cv.take(i + 1).last() == cv[i as int]);
        extend_str(out, rows[i].0.as_str());
        extend_str(out, "=");
        let n = i64_text(rows[i].1);
        extend_str(out, n.as_str());
        extend_str(out, ";");
        assert(out@ =~= start + counts_text(cv.take(i + 1)));
        i = i + 1;
    }
    assert(cv.take(rows@.len() as int) == cv);
}

/// The text the checksum is taken of.
pub fn checksum_input(sections: &Vec<(String, Vec<(String, i64)>)>) -> (s: String)
    ensures
        s@ == checksum_text(sections_view(sections@)),
{
    let ghost sv = sections_view(sections@);
    let mut out: Vec<char> = Vec::new();
    let mut i: usize = 0;
    assert(sv.take(0) =~= Seq::<(Seq<char>, StatusCounts)>::empty());
    while i < sections.len()
        invariant
            i <= sections@.len(),
            sv == sections_view(sections@),
            out@ == checksum_text(sv.take(i as int)),
        decreases sections.len() - i,
    {
        assert(sv.take(i + 1).drop_last() == sv.take(i as int));
        assert(sv.take(i + 1).last() == sv[i as int]);
        let ghost before = out@;
        extend_str(&mut out, sections[i].0.as_str());
        extend_str(&mut out, ":");
        push_counts(&mut out, &sections[i].1);
        extend_str(&mut out, "|");
        assert(out@ =~= before + sv[i as int].0 + ":"@ + counts_text(sv[i as int].1) + "|"@);
        i = i + 1;
    }
    assert(sv.take(sections@.len() as int) == sv);
    string_of(&out)
}

/// The state checksum: SHA-256 of the UTF-8 checksum text, as 64 lowercase
/// hex digits.
pub fn state_checksum(sections: &Vec<(String, Vec<(String, i64)>)>) -> (s: String)
    ensures
        s@ == hex_lower(sha256_spec(encode_utf8(checksum_text(sections_view(sections@))))),
        s@.len() == 64,
{
    let text = checksum_input(sections);
    let bytes = text.as_str().as_bytes_vec();
    let digest = sha256(bytes.as_slice());
    let s = hex_encode(digest.as_slice());
    proof {
        crate::codec::lemma_hex_lower_shape(digest@);
    }
    s
}

} // verus!
