//! Properties of the alignment as a whole.
use vstd::prelude::*;
use crate::scoring::{AlignmentType, lemma_score_bounded, score, step_kind};
use crate::fill::{best_cell, best_through, lemma_best_through_bounded};
use crate::render::{lemma_walk_shape, lower_seq, max_nat, repeat, walk};
use crate::alignment;

verus! {

/// For every pair of sequences, the three display lines have equal length.
pub proof fn lemma_lines_equal_length(query: Seq<char>, subject: Seq<char>)
    ensures
        alignment(query, subject).0.len() == alignment(query, subject).1.len(),
        alignment(query, subject).2.len() == alignment(query, subject).1.len(),
{
    let b = best_cell(query, subject);
    lemma_best_through_bounded(query, subject, subject.len(), query.len());
    lemma_walk_shape(query, subject, b.0, b.1);
}

/// On the diagonal of a sequence against itself, cell `(i, i)` scores `i` and
/// is reached by a match.
proof fn lemma_self_diagonal(t: Seq<char>, i: nat)
    requires
        i <= t.len(),
    ensures
        score(t, t, i, i) == i,
        i > 0 ==> step_kind(t, t, i, i) == AlignmentType::Match,
    decreases i,
{
    if i > 0 {
        lemma_self_diagonal(t, (i - 1) as nat);
        lemma_score_bounded(t, t, (i - 1) as nat, i);
        lemma_score_bounded(t, t, i, (i - 1) as nat);
    }
}

/// The walk back from `(i, i)` of a sequence against itself matches all of
/// its first `i` characters and stops at the corner.
proof fn lemma_self_walk(t: Seq<char>, i: nat)
    requires
        i <= t.len(),
    ensures
        walk(t, t, i, i) == (t.subrange(0, i as int), repeat('|', i), t.subrange(0, i as int), 0nat, 0nat),
    decreases i,
{
    lemma_self_diagonal(t, i);
    if i > 0 {
        lemma_self_walk(t, (i - 1) as nat);
        let w = walk(t, t, i, i);
        assert(w.0 =~= t.subrange(0, i as int));
        assert(w.1 =~= repeat('|', i));
    } else {
        assert(t.subrange(0, 0) =~= Seq::<char>::empty());
        assert(repeat('|', 0) =~= Seq::<char>::empty());
    }
}

/// A sequence aligned against itself is one core of matches with no flank:
/// both sequence lines are the sequence and the marker line is all `|`.
pub proof fn lemma_identical_inputs(t: Seq<char>)
    requires
        t.len() > 0,
    ensures
        alignment(t, t) == (t, repeat('|', t.len()), t),
{
    let n = t.len();
    lemma_self_diagonal(t, n);
    lemma_self_walk(t, n);
    lemma_best_through_bounded(t, t, n, (n - 1) as nat);
    let b = best_through(t, t, n, (n - 1) as nat);
    lemma_score_bounded(t, t, b.0, b.1);
    assert(best_cell(t, t) == (n, n));
    let r = alignment(t, t);
    assert(t.subrange(0, n as int) =~= t);
    assert(r.0 =~= t);
    assert(r.1 =~= repeat('|', n));
    assert(r.2 =~= t);
}

/// With no character in common, every cell scores zero.
proof fn lemma_disjoint_scores_zero(query: Seq<char>, subject: Seq<char>, i: nat, j: nat)
    requires
        i <= subject.len(),
        j <= query.len(),
        forall|a: int, b: int|
            0 <= a < query.len() && 0 <= b < subject.len() ==> query[a] != subject[b],
    ensures
        score(query, subject, i, j) == 0,
    decreases i + j,
{
    if i > 0 && j > 0 {
        lemma_disjoint_scores_zero(query, subject, (i - 1) as nat, (j - 1) as nat);
        lemma_disjoint_scores_zero(query, subject, (i - 1) as nat, j);
        lemma_disjoint_scores_zero(query, subject, i, (j - 1) as nat);
        assert(query[j - 1] != subject[i - 1]);
    }
}

/// With no character in common, the best cell stays the corner.
proof fn lemma_disjoint_best_corner(query: Seq<char>, subject: Seq<char>, i: nat, j: nat)
    requires
        i <= subject.len(),
        j <= query.len(),
        forall|a: int, b: int|
            0 <= a < query.len() && 0 <= b < subject.len() ==> query[a] != subject[b],
    ensures
        best_through(query, subject, i, j) == (0nat, 0nat),
    decreases i, j,
{
    if i > 0 {
        if j == 0 {
            lemma_disjoint_best_corner(query, subject, (i - 1) as nat, query.len());
        } else {
            lemma_disjoint_best_corner(query, subject, i, (j - 1) as nat);
            lemma_disjoint_scores_zero(query, subject, i, j);
        }
    }
}

/// Two sequences with no character in common have an empty core: each
/// sequence line is the whole sequence soft-masked, `'\0'` filling the
/// shorter one, under a blank marker line.
pub proof fn lemma_disjoint_inputs(query: Seq<char>, subject: Seq<char>)
    requires
        forall|a: int, b: int|
            0 <= a < query.len() && 0 <= b < subject.len() ==> query[a] != subject[b],
    ensures
        alignment(query, subject) == ({
            let w = max_nat(query.len(), subject.len());
            (
                lower_seq(query) + repeat('\0', (w - query.len()) as nat),
                repeat(' ', w),
                lower_seq(subject) + repeat('\0', (w - subject.len()) as nat),
            )
        }),
{
    lemma_disjoint_best_corner(query, subject, subject.len(), query.len());
    let w = max_nat(query.len(), subject.len());
    let r = alignment(query, subject);
    assert(query.subrange(0, 0) =~= Seq::<char>::empty());
    assert(subject.subrange(0, 0) =~= Seq::<char>::empty());
    assert(query.subrange(0, query.len() as int) =~= query);
    assert(subject.subrange(0, subject.len() as int) =~= subject);
    assert(repeat(' ', 0) =~= Seq::<char>::empty());
    assert(r.0 =~= lower_seq(query) + repeat('\0', (w - query.len()) as nat));
    assert(r.1 =~= repeat(' ', w));
    assert(r.2 =~= lower_seq(subject) + repeat('\0', (w - subject.len()) as nat));
}

/// Swapping query and subject transposes the score matrix.
pub proof fn lemma_swap_transposes_scores(query: Seq<char>, subject: Seq<char>, i: nat, j: nat)
    ensures
        score(query, subject, i, j) == score(subject, query, j, i),
    decreases i + j,
{
    if i > 0 && j > 0 {
        lemma_swap_transposes_scores(query, subject, (i - 1) as nat, (j - 1) as nat);
        lemma_swap_transposes_scores(query, subject, (i - 1) as nat, j);
        lemma_swap_transposes_scores(query, subject, i, (j - 1) as nat);
    }
}

/// Swapping query and subject keeps the best score.
pub proof fn lemma_swap_keeps_best_score(query: Seq<char>, subject: Seq<char>)
    ensures
        score(query, subject, best_cell(query, subject).0, best_cell(query, subject).1) == score(
            subject,
            query,
            best_cell(subject, query).0,
            best_cell(subject, query).1,
        ),
{
    let b1 = best_cell(query, subject);
    let b2 = best_cell(subject, query);
    lemma_best_through_bounded(query, subject, subject.len(), query.len());
    lemma_best_through_bounded(subject, query, query.len(), subject.len());
    lemma_swap_transposes_scores(query, subject, b1.0, b1.1);
    lemma_swap_transposes_scores(query, subject, b2.1, b2.0);
    assert(score(query, subject, b2.1, b2.0) <= score(query, subject, b1.0, b1.1));
    assert(score(subject, query, b1.1, b1.0) <= score(subject, query, b2.0, b2.1));
}

/// The display lines depend on the two sequences alone: equal inputs give
/// equal lines.
pub proof fn lemma_same_inputs_same_lines(q1: Seq<char>, s1: Seq<char>, q2: Seq<char>, s2: Seq<char>)
    requires
        q1 == q2,
        s1 == s2,
    ensures
        alignment(q1, s1) == alignment(q2, s2),
{
}

} // verus!
