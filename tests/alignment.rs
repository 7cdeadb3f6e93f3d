use local_alignment::display::get_id;
use local_alignment::fill::{levenshtein_distance, TraceStep};
use local_alignment::local_alignment;
use local_alignment::scoring::{get_alignment_cost, AlignmentType};

fn chars(s: &str) -> Vec<char> {
    s.chars().collect()
}

fn lines(q: &str, s: &str) -> (String, String, String) {
    local_alignment(q, s)
}

fn best_score(q: &str, s: &str) -> usize {
    let (array, _, best) = levenshtein_distance(&chars(q), &chars(s));
    array[best.0][best.1]
}

fn same_char_count(r: &(String, String, String)) -> bool {
    let a = r.0.chars().count();
    a == r.1.chars().count() && a == r.2.chars().count()
}

#[test]
fn identical_sequences_align_fully() {
    let r = lines("ATCG", "ATCG");
    assert_eq!(r, ("ATCG".to_string(), "||||".to_string(), "ATCG".to_string()));
    assert_eq!(best_score("ATCG", "ATCG"), 4);
}

#[test]
fn identical_longer_sequence_has_no_flank() {
    let r = lines("GATTACA", "GATTACA");
    assert_eq!(r, ("GATTACA".to_string(), "|||||||".to_string(), "GATTACA".to_string()));
}

#[test]
fn no_common_base_gives_all_flank() {
    let r = lines("AATT", "GGCC");
    assert_eq!(r, ("aatt".to_string(), "    ".to_string(), "ggcc".to_string()));
    assert_eq!(best_score("AATT", "GGCC"), 0);
    let (array, _, best) = levenshtein_distance(&chars("AATT"), &chars("GGCC"));
    assert_eq!(best, (0, 0));
    assert!(array.iter().all(|row| row.iter().all(|v| *v == 0)));
    let r = lines("AAAA", "CCCC");
    assert_eq!(r, ("aaaa".to_string(), "    ".to_string(), "cccc".to_string()));
}

#[test]
fn no_common_base_pads_shorter_with_nul() {
    let r = lines("AAAA", "CC");
    assert_eq!(r, ("aaaa".to_string(), "    ".to_string(), "cc\0\0".to_string()));
    let r = lines("A", "CCC");
    assert_eq!(r, ("a\0\0".to_string(), "   ".to_string(), "ccc".to_string()));
}

#[test]
fn core_in_middle_of_longer_query() {
    let r = lines("AAATCGAAA", "TCG");
    assert_eq!(
        r,
        ("aaaTCGaaa".to_string(), "   |||   ".to_string(), "   TCG\0\0\0".to_string())
    );
    assert_eq!(best_score("AAATCGAAA", "TCG"), 3);
}

#[test]
fn core_in_middle_of_longer_subject() {
    let r = lines("TCG", "AAATCGAAA");
    assert_eq!(
        r,
        ("   TCG\0\0\0".to_string(), "   |||   ".to_string(), "aaaTCGaaa".to_string())
    );
}

#[test]
fn leading_flank_blanks_and_trailing_flank_nul() {
    let r = lines("ACG", "TACGT");
    assert_eq!(r, (" ACG\0".to_string(), " ||| ".to_string(), "tACGt".to_string()));
    let r = lines("ACGTT", "AGT");
    assert_eq!(r, ("acGTt".to_string(), "  || ".to_string(), " aGT\0".to_string()));
}

#[test]
fn mismatch_inside_core_is_starred() {
    let r = lines("AAGTTT", "AACTTT");
    assert_eq!(r, ("AAGTTT".to_string(), "||*|||".to_string(), "AACTTT".to_string()));
}

#[test]
fn gap_in_subject() {
    let r = lines("AACCGTT", "AACGTT");
    assert_eq!(r, ("AACCGTT".to_string(), "||| |||".to_string(), "AAC-GTT".to_string()));
}

#[test]
fn gap_in_query() {
    let r = lines("AACGTT", "AACCGTT");
    assert_eq!(r, ("AAC-GTT".to_string(), "||| |||".to_string(), "AACCGTT".to_string()));
}

#[test]
fn earliest_best_cell_wins_ties() {
    // Cells (1, 2) and (2, 1) both score 1; the one filled first is kept.
    let (_, _, best) = levenshtein_distance(&chars("AC"), &chars("CA"));
    assert_eq!(best, (1, 2));
    let r = lines("AC", "CA");
    assert_eq!(r, ("aC\0".to_string(), " | ".to_string(), " Ca".to_string()));
    let r = lines("ACCA", "AA");
    assert_eq!(r, ("Acca".to_string(), "|   ".to_string(), "Aa\0\0".to_string()));
}

#[test]
fn single_characters() {
    assert_eq!(lines("A", "A"), ("A".to_string(), "|".to_string(), "A".to_string()));
    assert_eq!(lines("A", "C"), ("a".to_string(), " ".to_string(), "c".to_string()));
}

#[test]
fn lines_have_equal_length() {
    let pairs = [
        ("ATCG", "ATCG"),
        ("AATT", "GGCC"),
        ("AAATCGAAA", "TCG"),
        ("ACG", "TACGT"),
        ("GGAATTCC", "AATT"),
        ("AACCGTT", "AACGTT"),
        ("T", "GATTACA"),
    ];
    for (q, s) in pairs {
        assert!(same_char_count(&lines(q, s)), "{} / {}", q, s);
    }
}

#[test]
fn swapping_inputs_transposes_scores() {
    let pairs = [("AC", "CA"), ("AAATCGAAA", "TCG"), ("ACGTT", "AGT"), ("GATTACA", "TTAC")];
    for (q, s) in pairs {
        let (a, _, _) = levenshtein_distance(&chars(q), &chars(s));
        let (b, _, _) = levenshtein_distance(&chars(s), &chars(q));
        for i in 0..a.len() {
            for j in 0..a[i].len() {
                assert_eq!(a[i][j], b[j][i]);
            }
        }
        assert_eq!(best_score(q, s), best_score(s, q));
    }
    assert_eq!(best_score("GATTACA", "TTAC"), 4);
}

#[test]
fn rerun_gives_identical_output() {
    let first = lines("GATTACA", "TTAC");
    let second = lines("GATTACA", "TTAC");
    assert_eq!(first, second);
    assert_eq!(first, ("gaTTACa".to_string(), "  |||| ".to_string(), "  TTAC\0".to_string()));
}

#[test]
fn traceback_map_entries() {
    let (array, traceback, best) = levenshtein_distance(&chars("ATCG"), &chars("ATCG"));
    assert_eq!(array.len(), 5);
    assert_eq!(array[0].len(), 5);
    assert_eq!(best, (4, 4));
    assert_eq!(traceback[0][0], None);
    assert_eq!(
        traceback[2][0],
        Some(TraceStep { from_row: 1, from_col: 0, kind: AlignmentType::DeletionQuery })
    );
    assert_eq!(
        traceback[0][3],
        Some(TraceStep { from_row: 0, from_col: 2, kind: AlignmentType::DeletionSubject })
    );
    assert_eq!(
        traceback[3][3],
        Some(TraceStep { from_row: 2, from_col: 2, kind: AlignmentType::Match })
    );
    // All candidates floor to zero: the horizontal move is preferred.
    assert_eq!(
        traceback[1][2],
        Some(TraceStep { from_row: 1, from_col: 1, kind: AlignmentType::DeletionSubject })
    );
    assert_eq!(array[3][3], 3);
}

#[test]
fn mismatch_entry_when_diagonal_wins() {
    // Cell (3, 3) of AAGTTT against AACTTT: diagonal 1, up 0, left 0.
    let (array, traceback, _) = levenshtein_distance(&chars("AAGTTT"), &chars("AACTTT"));
    assert_eq!(array[3][3], 1);
    assert_eq!(
        traceback[3][3],
        Some(TraceStep { from_row: 2, from_col: 2, kind: AlignmentType::Mismatch })
    );
}

#[test]
fn move_costs() {
    assert_eq!(get_alignment_cost(AlignmentType::Match), 1);
    assert_eq!(get_alignment_cost(AlignmentType::Mismatch), -1);
    assert_eq!(get_alignment_cost(AlignmentType::DeletionQuery), -1);
    assert_eq!(get_alignment_cost(AlignmentType::DeletionSubject), -1);
}

#[test]
fn style_classes() {
    assert_eq!(get_id('A'), "aligned-char adenosine");
    assert_eq!(get_id('C'), "aligned-char cytosine");
    assert_eq!(get_id('G'), "aligned-char guanine");
    assert_eq!(get_id('T'), "aligned-char thymine");
    assert_eq!(get_id('g'), "aligned-char softmask");
    assert_eq!(get_id('|'), "aligned-char");
    assert_eq!(get_id('-'), "aligned-char");
}
