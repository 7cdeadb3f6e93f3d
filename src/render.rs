//! Traceback reconstruction and flank padding: from a filled matrix to the
//! three display lines.
use vstd::prelude::*;
use crate::scoring::{AlignmentType, score, step_kind};
use crate::fill::{TraceStep, expected_step, is_score_matrix, is_traceback_map, origin};

verus! {

/// A nucleotide in upper case.
pub open spec fn is_base(c: char) -> bool {
    c == 'A' || c == 'C' || c == 'G' || c == 'T'
}

/// Every character of `t` is a nucleotide in upper case.
pub open spec fn all_bases(t: Seq<char>) -> bool {
    forall|k: int| 0 <= k < t.len() ==> #[trigger] is_base(t[k])
}

/// The lower-case (soft-masked) form of a nucleotide.
pub open spec fn lower(c: char) -> char {
    if c == 'A' {
        'a'
    } else if c == 'C' {
        'c'
    } else if c == 'G' {
        'g'
    } else {
        't'
    }
}

/// `t` soft-masked.
pub open spec fn lower_seq(t: Seq<char>) -> Seq<char> {
    t.map_values(|c: char| lower(c))
}

/// `count` copies of `c`.
pub open spec fn repeat(c: char, count: nat) -> Seq<char> {
    Seq::new(count, |k: int| c)
}

/// The marker of a move: `|` for a match, `*` for a mismatch, blank for a gap.
pub open spec fn marker(kind: AlignmentType) -> char {
    match kind {
        AlignmentType::Match => '|',
        AlignmentType::Mismatch => '*',
        _ => ' ',
    }
}

/// The core alignment that ends at cell `(i, j)`: the query line, the marker
/// line and the subject line, in reading order, and the cell where the walk
/// back stopped (the first cell of score zero).
pub open spec fn walk(query: Seq<char>, subject: Seq<char>, i: nat, j: nat) -> (
    Seq<char>,
    Seq<char>,
    Seq<char>,
    nat,
    nat,
)
    decreases i + j,
{
    if i == 0 || j == 0 || score(query, subject, i, j) == 0 {
        (Seq::empty(), Seq::empty(), Seq::empty(), i, j)
    } else {
        let kind = step_kind(query, subject, i, j);
        let o = origin(kind, i, j);
        let r = walk(query, subject, o.0, o.1);
        let qc = if kind == AlignmentType::DeletionQuery {
            '-'
        } else {
            query[j - 1]
        };
        let sc = if kind == AlignmentType::DeletionSubject {
            '-'
        } else {
            subject[i - 1]
        };
        (r.0.push(qc), r.1.push(marker(kind)), r.2.push(sc), r.3, r.4)
    }
}

/// The larger of two naturals.
pub open spec fn max_nat(a: nat, b: nat) -> nat {
    if a >= b { a } else { b }
}

/// The three display lines of the alignment whose core ends at cell
/// `(bi, bj)`. Before the core, each sequence's unaligned prefix is shown
/// soft-masked and right-aligned, blanks filling the shorter one; after it,
/// each unaligned suffix is shown soft-masked, `'\0'` filling the shorter one.
/// The marker line is blank outside the core.
pub open spec fn render(query: Seq<char>, subject: Seq<char>, bi: nat, bj: nat) -> (
    Seq<char>,
    Seq<char>,
    Seq<char>,
) {
    let w = walk(query, subject, bi, bj);
    let (si, sj) = (w.3, w.4);
    let lead = max_nat(si, sj);
    let q_tail = (query.len() - bj) as nat;
    let s_tail = (subject.len() - bi) as nat;
    let trail = max_nat(q_tail, s_tail);
    (
        repeat(' ', (lead - sj) as nat) + lower_seq(query.subrange(0, sj as int)) + w.0
            + lower_seq(query.subrange(bj as int, query.len() as int)) + repeat(
            '\0',
            (trail - q_tail) as nat,
        ),
        repeat(' ', lead) + w.1 + repeat(' ', trail),
        repeat(' ', (lead - si) as nat) + lower_seq(subject.subrange(0, si as int)) + w.2
            + lower_seq(subject.subrange(bi as int, subject.len() as int)) + repeat(
            '\0',
            (trail - s_tail) as nat,
        ),
    )
}

/// The walk back from `(i, j)` stays inside the matrix and stops at a cell
/// no later than where it started; its three lines have equal length.
pub proof fn lemma_walk_shape(query: Seq<char>, subject: Seq<char>, i: nat, j: nat)
    ensures
        walk(query, subject, i, j).3 <= i,
        walk(query, subject, i, j).4 <= j,
        walk(query, subject, i, j).0.len() == walk(query, subject, i, j).1.len(),
        walk(query, subject, i, j).2.len() == walk(query, subject, i, j).1.len(),
    decreases i + j,
{
    if !(i == 0 || j == 0 || score(query, subject, i, j) == 0) {
        let o = origin(step_kind(query, subject, i, j), i, j);
        lemma_walk_shape(query, subject, o.0, o.1);
    }
}

/// Reversing after a push puts the pushed item first.
proof fn lemma_reverse_push(t: Seq<char>, c: char)
    ensures
        t.push(c).reverse() == seq![c] + t.reverse(),
{
    assert(t.push(c).reverse() =~= seq![c] + t.reverse());
}

/// Returns the soft-masked form of a nucleotide.
fn to_lowercase(nt: char) -> (r: char)
    requires
        is_base(nt),
    ensures
        r == lower(nt),
{
    match nt {
        'A' => 'a',
        'C' => 'c',
        'G' => 'g',
        _ => 't',
    }
}

/// Appends `count` copies of `c`.
fn push_repeat(out: &mut Vec<char>, c: char, count: usize)
    ensures
        final(out)@ == old(out)@ + repeat(c, count as nat),
{
    let ghost start = out@;
    let mut k: usize = 0;
    while k < count
        invariant
            k <= count,
            out@ == start + repeat(c, k as nat),
        decreases count - k,
    {
        out.push(c);
        k = k + 1;
        assert(out@ =~= start + repeat(c, k as nat));
    }
}

/// Appends `t[from..to]`, soft-masked.
fn push_lower(out: &mut Vec<char>, t: &Vec<char>, from: usize, to: usize)
    requires
        from <= to <= t.len(),
        all_bases(t@),
    ensures
        final(out)@ == old(out)@ + lower_seq(t@.subrange(from as int, to as int)),
{
    let ghost start = out@;
    let mut k: usize = from;
    while k < to
        invariant
            from <= k <= to <= t.len(),
            all_bases(t@),
            out@ == start + lower_seq(t@.subrange(from as int, k as int)),
        decreases to - k,
    {
        let c = to_lowercase(t[k]);
        out.push(c);
        k = k + 1;
        assert(out@ =~= start + lower_seq(t@.subrange(from as int, k as int)));
    }
}

/// Appends `t` in reverse order.
fn push_reversed(out: &mut Vec<char>, t: &Vec<char>)
    ensures
        final(out)@ == old(out)@ + t@.reverse(),
{
    let ghost start = out@;
    let mut k: usize = t.len();
    while k > 0
        invariant
            k <= t.len(),
            out@ == start + t@.subrange(k as int, t.len() as int).reverse(),
        decreases k,
    {
        k = k - 1;
        out.push(t[k]);
        assert(out@ =~= start + t@.subrange(k as int, t.len() as int).reverse());
    }
    assert(t@.subrange(0, t.len() as int) =~= t@);
}

/// Relies on std's `FromIterator<char>` for `String`: the string holds the
/// characters in order.
#[verifier::external_body]
fn string_from_chars(chars: &Vec<char>) -> (r: String)
    ensures
        r@ == chars@,
{
    chars.iter().collect()
}

/// Walks the traceback map back from `max_index` to the first cell of score
/// zero and renders the three display lines, flanks included.
pub fn get_traceback(
    array: &Vec<Vec<usize>>,
    traceback: &Vec<Vec<Option<TraceStep>>>,
    max_index: (usize, usize),
    query: &Vec<char>,
    subject: &Vec<char>,
) -> (r: (String, String, String))
    requires
        is_score_matrix(query@, subject@, array@),
        is_traceback_map(query@, subject@, traceback@),
        max_index.0 <= subject.len(),
        max_index.1 <= query.len(),
        all_bases(query@),
        all_bases(subject@),
    ensures
        (r.0@, r.1@, r.2@) == render(query@, subject@, max_index.0 as nat, max_index.1 as nat),
{
    let ghost q = query@;
    let ghost s = subject@;
    let (bi, bj) = max_index;
    let ghost whole = walk(q, s, bi as nat, bj as nat);

    // The core, collected backwards.
    let mut core_q: Vec<char> = Vec::new();
    let mut core_m: Vec<char> = Vec::new();
    let mut core_s: Vec<char> = Vec::new();
    let mut i: usize = bi;
    let mut j: usize = bj;
    loop
        invariant
            i <= subject.len(),
            j <= query.len(),
            q == query@,
            s == subject@,
            is_score_matrix(q, s, array@),
            is_traceback_map(q, s, traceback@),
            whole.0 == walk(q, s, i as nat, j as nat).0 + core_q@.reverse(),
            whole.1 == walk(q, s, i as nat, j as nat).1 + core_m@.reverse(),
            whole.2 == walk(q, s, i as nat, j as nat).2 + core_s@.reverse(),
            whole.3 == walk(q, s, i as nat, j as nat).3,
            whole.4 == walk(q, s, i as nat, j as nat).4,
        ensures
            whole.0 == core_q@.reverse(),
            whole.1 == core_m@.reverse(),
            whole.2 == core_s@.reverse(),
            whole.3 == i,
            whole.4 == j,
        decreases i + j,
    {
        let ghost before = (core_q@, core_m@, core_s@);
        if array[i][j] == 0 {
            assert(walk(q, s, i as nat, j as nat).0 == Seq::<char>::empty());
            assert(whole.0 =~= core_q@.reverse());
            assert(whole.1 =~= core_m@.reverse());
            assert(whole.2 =~= core_s@.reverse());
            break;
        }
        assert(i > 0 && j > 0);
        assert(traceback@[i as int]@[j as int] == expected_step(q, s, i as nat, j as nat));
        let step = traceback[i][j].unwrap();
        match step.kind {
            AlignmentType::Match => {
                core_q.push(query[j - 1]);
                core_m.push('|');
                core_s.push(subject[i - 1]);
            },
            AlignmentType::Mismatch => {
                core_q.push(query[j - 1]);
                core_m.push('*');
                core_s.push(subject[i - 1]);
            },
            AlignmentType::DeletionQuery => {
                core_q.push('-');
                core_m.push(' ');
                core_s.push(subject[i - 1]);
            },
            AlignmentType::DeletionSubject => {
                core_q.push(query[j - 1]);
                core_m.push(' ');
                core_s.push('-');
            },
        }
        proof {
            let o = origin(step.kind, i as nat, j as nat);
            let inner = walk(q, s, o.0, o.1);
            lemma_reverse_push(before.0, core_q@.last());
            lemma_reverse_push(before.1, core_m@.last());
            lemma_reverse_push(before.2, core_s@.last());
            assert(core_q@ == before.0.push(core_q@.last()));
            assert(core_m@ == before.1.push(core_m@.last()));
            assert(core_s@ == before.2.push(core_s@.last()));
            assert(walk(q, s, i as nat, j as nat).0 == inner.0.push(core_q@.last()));
            assert(walk(q, s, i as nat, j as nat).1 == inner.1.push(core_m@.last()));
            assert(walk(q, s, i as nat, j as nat).2 == inner.2.push(core_s@.last()));
            assert(whole.0 =~= inner.0 + core_q@.reverse());
            assert(whole.1 =~= inner.1 + core_m@.reverse());
            assert(whole.2 =~= inner.2 + core_s@.reverse());
        }
        i = step.from_row;
        j = step.from_col;
    }
    proof {
        lemma_walk_shape(q, s, bi as nat, bj as nat);
    }

    let lead = if i >= j { i } else { j };
    let q_tail = query.len() - bj;
    let s_tail = subject.len() - bi;
    let trail = if q_tail >= s_tail { q_tail } else { s_tail };

    let mut line_q: Vec<char> = Vec::new();
    push_repeat(&mut line_q, ' ', lead - j);
    push_lower(&mut line_q, query, 0, j);
    push_reversed(&mut line_q, &core_q);
    push_lower(&mut line_q, query, bj, query.len());
    push_repeat(&mut line_q, '\0', trail - q_tail);

    let mut line_m: Vec<char> = Vec::new();
    push_repeat(&mut line_m, ' ', lead);
    push_reversed(&mut line_m, &core_m);
    push_repeat(&mut line_m, ' ', trail);

    let mut line_s: Vec<char> = Vec::new();
    push_repeat(&mut line_s, ' ', lead - i);
    push_lower(&mut line_s, subject, 0, i);
    push_reversed(&mut line_s, &core_s);
    push_lower(&mut line_s, subject, bi, subject.len());
    push_repeat(&mut line_s, '\0', trail - s_tail);

    (string_from_chars(&line_q), string_from_chars(&line_m), string_from_chars(&line_s))
}

} // verus!
