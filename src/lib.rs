//! Local alignment of two nucleotide sequences (a Smith-Waterman variant with
//! unit costs), rendered as three display lines with soft-masked flanks.
use vstd::prelude::*;

pub mod scoring;
pub mod fill;
pub mod render;
pub mod laws;
pub mod display;

use crate::fill::{best_cell, levenshtein_distance};
use crate::laws::lemma_lines_equal_length;
use crate::render::{all_bases, get_traceback, render};

verus! {

/// The display lines of the local alignment of `query` against `subject`:
/// the core ends at the best cell of the matrix.
pub open spec fn alignment(query: Seq<char>, subject: Seq<char>) -> (Seq<char>, Seq<char>, Seq<char>) {
    let b = best_cell(query, subject);
    render(query, subject, b.0, b.1)
}

/// The characters of `s`, in order.
fn chars_of(s: &str) -> (r: Vec<char>)
    ensures
        r@ == s@,
{
    let n = s.unicode_len();
    let mut r: Vec<char> = Vec::new();
    let mut k: usize = 0;
    while k < n
        invariant
            k <= n,
            n == s@.len(),
            r@ == s@.subrange(0, k as int),
        decreases n - k,
    {
        r.push(s.get_char(k));
        k = k + 1;
        assert(r@ =~= s@.subrange(0, k as int));
    }
    assert(s@.subrange(0, n as int) =~= s@);
    r
}

/// Aligns `query` against `subject` and returns the query line, the marker
/// line and the subject line, all of one length.
pub fn local_alignment(query: &str, subject: &str) -> (r: (String, String, String))
    requires
        query@.len() > 0,
        subject@.len() > 0,
        all_bases(query@),
        all_bases(subject@),
    ensures
        (r.0@, r.1@, r.2@) == alignment(query@, subject@),
        r.0@.len() == r.1@.len(),
        r.2@.len() == r.1@.len(),
{
    let q = chars_of(query);
    let s = chars_of(subject);
    let (array, traceback, max_index) = levenshtein_distance(&q, &s);
    proof {
        lemma_lines_equal_length(q@, s@);
    }
    get_traceback(&array, &traceback, max_index, &q, &s)
}

} // verus!
