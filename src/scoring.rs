//! Scoring model: move kinds, their costs, and the local-alignment score of
//! every matrix cell.
use vstd::prelude::*;

verus! {

/// How a cell of the matrix was reached from its origin cell.
#[derive(Clone, Copy, Debug, PartialEq, Eq, Structural)]
pub enum AlignmentType {
    /// Diagonal move, query and subject characters are equal.
    Match,
    /// Diagonal move, query and subject characters differ.
    Mismatch,
    /// Vertical move: the subject is consumed, the query has a gap.
    DeletionQuery,
    /// Horizontal move: the query is consumed, the subject has a gap.
    DeletionSubject,
}

/// The cost of each kind of move.
pub open spec fn cost(aln: AlignmentType) -> int {
    match aln {
        AlignmentType::Match => 1,
        AlignmentType::Mismatch => -1,
        AlignmentType::DeletionQuery => -1,
        AlignmentType::DeletionSubject => -1,
    }
}

/// `x` floored at zero.
pub open spec fn floor0(x: int) -> nat {
    if x < 0 { 0 } else { x as nat }
}

/// The diagonal move into cell `(i, j)`: a match when the subject's `i`-th and
/// the query's `j`-th characters (1-based) are equal.
pub open spec fn diag_kind(query: Seq<char>, subject: Seq<char>, i: nat, j: nat) -> AlignmentType {
    if subject[i - 1] == query[j - 1] {
        AlignmentType::Match
    } else {
        AlignmentType::Mismatch
    }
}

/// Local-alignment score of cell `(i, j)`: row `i` indexes the subject,
/// column `j` the query. Row 0 and column 0 are zero; every other cell is the
/// largest of the three candidate values, each floored at zero.
pub open spec fn score(query: Seq<char>, subject: Seq<char>, i: nat, j: nat) -> nat
    decreases i + j,
{
    if i == 0 || j == 0 {
        0
    } else {
        let diag = floor0(
            score(query, subject, (i - 1) as nat, (j - 1) as nat) + cost(
                diag_kind(query, subject, i, j),
            ),
        );
        let up = floor0(
            score(query, subject, (i - 1) as nat, j) + cost(AlignmentType::DeletionQuery),
        );
        let left = floor0(
            score(query, subject, i, (j - 1) as nat) + cost(AlignmentType::DeletionSubject),
        );
        if left >= up && left >= diag {
            left
        } else if up >= diag {
            up
        } else {
            diag
        }
    }
}

/// Move kind chosen at an inner cell `(i, j)`: among the candidates taken in
/// the order diagonal, up, left, the last one of greatest value.
pub open spec fn step_kind(query: Seq<char>, subject: Seq<char>, i: nat, j: nat) -> AlignmentType {
    let diag = floor0(
        score(query, subject, (i - 1) as nat, (j - 1) as nat) + cost(
            diag_kind(query, subject, i, j),
        ),
    );
    let up = floor0(score(query, subject, (i - 1) as nat, j) + cost(AlignmentType::DeletionQuery));
    let left = floor0(
        score(query, subject, i, (j - 1) as nat) + cost(AlignmentType::DeletionSubject),
    );
    if left >= up && left >= diag {
        AlignmentType::DeletionSubject
    } else if up >= diag {
        AlignmentType::DeletionQuery
    } else {
        diag_kind(query, subject, i, j)
    }
}

/// A cell's score never exceeds its row or its column index.
pub proof fn lemma_score_bounded(query: Seq<char>, subject: Seq<char>, i: nat, j: nat)
    ensures
        score(query, subject, i, j) <= i,
        score(query, subject, i, j) <= j,
    decreases i + j,
{
    if i > 0 && j > 0 {
        lemma_score_bounded(query, subject, (i - 1) as nat, (j - 1) as nat);
        lemma_score_bounded(query, subject, (i - 1) as nat, j);
        lemma_score_bounded(query, subject, i, (j - 1) as nat);
    }
}

/// Returns the cost of a move.
pub fn get_alignment_cost(aln: AlignmentType) -> (r: i32)
    ensures
        r == cost(aln),
{
    match aln {
        AlignmentType::Match => 1,
        AlignmentType::Mismatch => -1,
        AlignmentType::DeletionQuery => -1,
        AlignmentType::DeletionSubject => -1,
    }
}

/// `v + c`, floored at zero.
pub(crate) fn floored_add(v: usize, c: i32) -> (r: usize)
    requires
        v + c <= usize::MAX,
    ensures
        r == floor0(v + c),
{
    if c >= 0 {
        v + (c as usize)
    } else {
        let d: usize = (0 - (c as i64)) as usize;
        if v >= d {
            v - d
        } else {
            0
        }
    }
}

} // verus!
