//! Matrix fill: the score matrix, the traceback map and the best cell.
use vstd::prelude::*;
use crate::scoring::{
    AlignmentType, diag_kind, floored_add, get_alignment_cost, lemma_score_bounded, score,
    step_kind,
};

verus! {

/// One entry of the traceback map: the cell a cell was reached from, and how.
#[derive(Clone, Copy, Debug, PartialEq, Eq, Structural)]
pub struct TraceStep {
    pub from_row: usize,
    pub from_col: usize,
    pub kind: AlignmentType,
}

/// The cell that a move of kind `kind` into `(i, j)` comes from.
pub open spec fn origin(kind: AlignmentType, i: nat, j: nat) -> (nat, nat) {
    match kind {
        AlignmentType::Match | AlignmentType::Mismatch => ((i - 1) as nat, (j - 1) as nat),
        AlignmentType::DeletionQuery => ((i - 1) as nat, j),
        AlignmentType::DeletionSubject => (i, (j - 1) as nat),
    }
}

/// The traceback entry of cell `(i, j)`. Column 0 leads up and row 0 leads
/// left towards the corner, which has no entry; an inner cell leads to the
/// origin of its chosen move.
pub open spec fn expected_step(query: Seq<char>, subject: Seq<char>, i: nat, j: nat) -> Option<
    TraceStep,
> {
    if i == 0 && j == 0 {
        None
    } else {
        let kind = if j == 0 {
            AlignmentType::DeletionQuery
        } else if i == 0 {
            AlignmentType::DeletionSubject
        } else {
            step_kind(query, subject, i, j)
        };
        let o = origin(kind, i, j);
        Some(TraceStep { from_row: o.0 as usize, from_col: o.1 as usize, kind })
    }
}

/// The best cell among the cells filled up to `(i, j)` in row-major order
/// (rows 1 to `i - 1` whole, then row `i` up to column `j`): a later cell
/// replaces the best so far only with a strictly greater score, so the
/// earliest maximum wins. `(0, 0)` stands for "no positive score yet".
pub open spec fn best_through(query: Seq<char>, subject: Seq<char>, i: nat, j: nat) -> (nat, nat)
    decreases i, j,
{
    if i == 0 {
        (0, 0)
    } else if j == 0 {
        best_through(query, subject, (i - 1) as nat, query.len())
    } else {
        let b = best_through(query, subject, i, (j - 1) as nat);
        if score(query, subject, i, j) > score(query, subject, b.0, b.1) {
            (i, j)
        } else {
            b
        }
    }
}

/// The best cell so far is `(0, 0)` or a filled cell, and no filled cell
/// scores more than it.
pub proof fn lemma_best_through_bounded(query: Seq<char>, subject: Seq<char>, i: nat, j: nat)
    requires
        j <= query.len(),
    ensures
        best_through(query, subject, i, j).0 < i || (best_through(query, subject, i, j).0 == i
            && best_through(query, subject, i, j).1 <= j),
        best_through(query, subject, i, j).1 <= query.len(),
        forall|a: nat, b: nat|
            (a < i && b <= query.len()) || (a == i && b <= j) ==> #[trigger] score(
                query,
                subject,
                a,
                b,
            ) <= score(
                query,
                subject,
                best_through(query, subject, i, j).0,
                best_through(query, subject, i, j).1,
            ),
    decreases i, j,
{
    if i > 0 {
        if j == 0 {
            lemma_best_through_bounded(query, subject, (i - 1) as nat, query.len());
        } else {
            lemma_best_through_bounded(query, subject, i, (j - 1) as nat);
        }
    }
}

/// The best cell so far is the corner or a cell of positive score, and every
/// inner cell filled before it scores strictly less.
proof fn lemma_best_through_earliest(query: Seq<char>, subject: Seq<char>, i: nat, j: nat)
    requires
        j <= query.len(),
    ensures
        best_through(query, subject, i, j) == (0nat, 0nat) || (best_through(query, subject, i, j).0
            >= 1 && best_through(query, subject, i, j).1 >= 1 && score(
            query,
            subject,
            best_through(query, subject, i, j).0,
            best_through(query, subject, i, j).1,
        ) > 0),
        forall|a: nat, b: nat|
            1 <= a && 1 <= b <= query.len() && (a < best_through(query, subject, i, j).0 || (a
                == best_through(query, subject, i, j).0 && b < best_through(
                query,
                subject,
                i,
                j,
            ).1)) ==> #[trigger] score(query, subject, a, b) < score(
                query,
                subject,
                best_through(query, subject, i, j).0,
                best_through(query, subject, i, j).1,
            ),
    decreases i, j,
{
    if i > 0 {
        if j == 0 {
            lemma_best_through_earliest(query, subject, (i - 1) as nat, query.len());
        } else {
            lemma_best_through_earliest(query, subject, i, (j - 1) as nat);
            lemma_best_through_bounded(query, subject, i, (j - 1) as nat);
        }
    }
}

/// The best cell is the earliest cell of greatest score in row-major order:
/// it is `(0, 0)` when every cell scores zero, and otherwise an inner cell
/// that no cell outscores and that every inner cell filled before it scores
/// strictly less than.
pub proof fn lemma_best_cell_is_earliest_maximum(query: Seq<char>, subject: Seq<char>)
    ensures
        ({
            let b = best_cell(query, subject);
            &&& b.0 <= subject.len()
            &&& b.1 <= query.len()
            &&& forall|i: nat, j: nat|
                i <= subject.len() && j <= query.len() ==> #[trigger] score(query, subject, i, j)
                    <= score(query, subject, b.0, b.1)
            &&& b == (0nat, 0nat) <==> score(query, subject, b.0, b.1) == 0
            &&& forall|i: nat, j: nat|
                1 <= i && 1 <= j <= query.len() && (i < b.0 || (i == b.0 && j < b.1)) ==> #[trigger] score(
                    query,
                    subject,
                    i,
                    j,
                ) < score(query, subject, b.0, b.1)
        }),
{
    lemma_best_through_bounded(query, subject, subject.len(), query.len());
    lemma_best_through_earliest(query, subject, subject.len(), query.len());
}

/// The best cell of the whole matrix.
pub open spec fn best_cell(query: Seq<char>, subject: Seq<char>) -> (nat, nat) {
    best_through(query, subject, subject.len(), query.len())
}

/// `array` is the score matrix of `query` against `subject`.
pub open spec fn is_score_matrix(query: Seq<char>, subject: Seq<char>, array: Seq<Vec<usize>>) -> bool {
    &&& array.len() == subject.len() + 1
    &&& forall|i: int| 0 <= i < array.len() ==> #[trigger] array[i]@.len() == query.len() + 1
    &&& forall|i: int, j: int|
        0 <= i <= subject.len() && 0 <= j <= query.len() ==> #[trigger] array[i]@[j] == score(
            query,
            subject,
            i as nat,
            j as nat,
        )
}

/// `traceback` is the traceback map of `query` against `subject`.
pub open spec fn is_traceback_map(
    query: Seq<char>,
    subject: Seq<char>,
    traceback: Seq<Vec<Option<TraceStep>>>,
) -> bool {
    &&& traceback.len() == subject.len() + 1
    &&& forall|i: int| 0 <= i < traceback.len() ==> #[trigger] traceback[i]@.len() == query.len() + 1
    &&& forall|i: int, j: int|
        0 <= i <= subject.len() && 0 <= j <= query.len() ==> #[trigger] traceback[i]@[j]
            == expected_step(query, subject, i as nat, j as nat)
}

/// Fills the score matrix (rows index the subject, columns the query) and the
/// traceback map, and finds the best cell.
pub fn levenshtein_distance(query: &Vec<char>, subject: &Vec<char>) -> (r: (
    Vec<Vec<usize>>,
    Vec<Vec<Option<TraceStep>>>,
    (usize, usize),
))
    requires
        query.len() > 0,
        subject.len() > 0,
    ensures
        is_score_matrix(query@, subject@, r.0@),
        is_traceback_map(query@, subject@, r.1@),
        (r.2.0 as nat, r.2.1 as nat) == best_cell(query@, subject@),
        r.2.0 <= subject.len(),
        r.2.1 <= query.len(),
{
    let m = subject.len();
    let n = query.len();
    let ghost q = query@;
    let ghost s = subject@;

    let mut array: Vec<Vec<usize>> = Vec::new();
    let mut traceback: Vec<Vec<Option<TraceStep>>> = Vec::new();

    // Row 0: zero scores, each cell leading left.
    let mut row: Vec<usize> = Vec::new();
    let mut trace_row: Vec<Option<TraceStep>> = Vec::new();
    row.push(0);
    trace_row.push(None);
    let mut j: usize = 0;
    while j < n
        invariant
            j <= n,
            n == query.len(),
            row@.len() == j + 1,
            trace_row@.len() == j + 1,
            forall|jj: int| 0 <= jj <= j ==> #[trigger] row@[jj] == score(q, s, 0, jj as nat),
            forall|jj: int|
                0 <= jj <= j ==> #[trigger] trace_row@[jj] == expected_step(q, s, 0, jj as nat),
        decreases n - j,
    {
        j = j + 1;
        row.push(0);
        trace_row.push(
            Some(TraceStep { from_row: 0, from_col: j - 1, kind: AlignmentType::DeletionSubject }),
        );
    }
    array.push(row);
    traceback.push(trace_row);

    let mut best: (usize, usize) = (0, 0);
    let mut best_score: usize = 0;
    let mut i: usize = 0;
    while i < m
        invariant
            i <= m,
            m == subject.len(),
            n == query.len(),
            q == query@,
            s == subject@,
            array@.len() == i + 1,
            traceback@.len() == i + 1,
            forall|ii: int| 0 <= ii <= i ==> #[trigger] array@[ii]@.len() == n + 1,
            forall|ii: int| 0 <= ii <= i ==> #[trigger] traceback@[ii]@.len() == n + 1,
            forall|ii: int, jj: int|
                0 <= ii <= i && 0 <= jj <= n ==> #[trigger] array@[ii]@[jj] == score(
                    q,
                    s,
                    ii as nat,
                    jj as nat,
                ),
            forall|ii: int, jj: int|
                0 <= ii <= i && 0 <= jj <= n ==> #[trigger] traceback@[ii]@[jj] == expected_step(
                    q,
                    s,
                    ii as nat,
                    jj as nat,
                ),
            (best.0 as nat, best.1 as nat) == best_through(q, s, i as nat, n as nat),
            best_score == score(q, s, best.0 as nat, best.1 as nat),
        decreases m - i,
    {
        i = i + 1;
        let mut row: Vec<usize> = Vec::new();
        let mut trace_row: Vec<Option<TraceStep>> = Vec::new();
        row.push(0);
        trace_row.push(
            Some(TraceStep { from_row: i - 1, from_col: 0, kind: AlignmentType::DeletionQuery }),
        );
        let mut j: usize = 0;
        while j < n
            invariant
                1 <= i <= m,
                j <= n,
                m == subject.len(),
                n == query.len(),
                q == query@,
                s == subject@,
                array@.len() == i,
                forall|ii: int| 0 <= ii < i ==> #[trigger] array@[ii]@.len() == n + 1,
                forall|ii: int, jj: int|
                    0 <= ii < i && 0 <= jj <= n ==> #[trigger] array@[ii]@[jj] == score(
                        q,
                        s,
                        ii as nat,
                        jj as nat,
                    ),
                row@.len() == j + 1,
                trace_row@.len() == j + 1,
                forall|jj: int| 0 <= jj <= j ==> #[trigger] row@[jj] == score(q, s, i as nat, jj as nat),
                forall|jj: int|
                    0 <= jj <= j ==> #[trigger] trace_row@[jj] == expected_step(
                        q,
                        s,
                        i as nat,
                        jj as nat,
                    ),
                (best.0 as nat, best.1 as nat) == best_through(q, s, i as nat, j as nat),
                best_score == score(q, s, best.0 as nat, best.1 as nat),
            decreases n - j,
        {
            j = j + 1;
            proof {
                lemma_score_bounded(q, s, (i - 1) as nat, (j - 1) as nat);
                lemma_score_bounded(q, s, (i - 1) as nat, j as nat);
                lemma_score_bounded(q, s, i as nat, (j - 1) as nat);
            }
            let diag_type = if subject[i - 1] == query[j - 1] {
                AlignmentType::Match
            } else {
                AlignmentType::Mismatch
            };
            let diag = floored_add(array[i - 1][j - 1], get_alignment_cost(diag_type));
            let up = floored_add(array[i - 1][j], get_alignment_cost(AlignmentType::DeletionQuery));
            let left = floored_add(row[j - 1], get_alignment_cost(AlignmentType::DeletionSubject));
            // Of the candidates diagonal, up, left, the last of greatest value wins.
            let (value, step) = if left >= up && left >= diag {
                (left, TraceStep { from_row: i, from_col: j - 1, kind: AlignmentType::DeletionSubject })
            } else if up >= diag {
                (up, TraceStep { from_row: i - 1, from_col: j, kind: AlignmentType::DeletionQuery })
            } else {
                (diag, TraceStep { from_row: i - 1, from_col: j - 1, kind: diag_type })
            };
            proof {
                assert(diag_type == diag_kind(q, s, i as nat, j as nat));
                assert(value == score(q, s, i as nat, j as nat));
                assert(Some(step) == expected_step(q, s, i as nat, j as nat));
            }
            row.push(value);
            trace_row.push(Some(step));
            if value > best_score {
                best_score = value;
                best = (i, j);
            }
        }
        array.push(row);
        traceback.push(trace_row);
    }
    proof {
        lemma_best_through_bounded(q, s, m as nat, n as nat);
    }
    (array, traceback, best)
}

} // verus!
