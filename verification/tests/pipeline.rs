use pdedupe::dedup_list;
use pdedupe::dedupe_value;
use pdedupe::join_list;
use pdedupe::process;
use pdedupe::split_list;
use pdedupe::Verdict;

fn strings(words: &[&str]) -> Vec<String> {
    words.iter().map(|w| String::from(*w)).collect()
}

#[test]
fn basic_dedup_posix() {
    let parts = split_list("/usr/bin:/usr/local/bin:/usr/bin", ':');
    assert_eq!(parts, strings(&["/usr/bin", "/usr/local/bin", "/usr/bin"]));
    let kept = dedup_list(&parts);
    assert_eq!(kept, strings(&["/usr/bin", "/usr/local/bin"]));
    let joined = join_list(&kept, ':');
    assert_eq!(joined, "/usr/bin:/usr/local/bin");
}

#[test]
fn empty_input_yields_empty_output() {
    let parts = split_list("", ':');
    assert!(parts.is_empty());
    let kept = dedup_list(&parts);
    assert!(kept.is_empty());
    assert_eq!(join_list(&kept, ':'), "");
}

#[test]
fn no_duplicates_and_first_occurrence_order() {
    let parts = strings(&["a", "b", "a", "c", "b", "a"]);
    let kept = dedup_list(&parts);
    assert_eq!(kept, strings(&["a", "b", "c"]));
    for i in 0..kept.len() {
        for j in 0..kept.len() {
            if i != j {
                assert_ne!(kept[i], kept[j]);
            }
        }
    }
}

#[test]
fn output_is_subsequence_of_input() {
    let parts = strings(&["x", "y", "x", "z", "y"]);
    let kept = dedup_list(&parts);
    assert_eq!(kept, strings(&["x", "y", "z"]));
    let mut next: usize = 0;
    for p in parts.iter() {
        if next < kept.len() && *p == kept[next] {
            next += 1;
        }
    }
    assert_eq!(next, kept.len());
}

#[test]
fn idempotent_on_own_output() {
    for raw in ["/usr/bin:/usr/local/bin:/usr/bin", "", ":", "a::a:b", "a:a:a", "::"] {
        let out1 = join_list(&dedup_list(&split_list(raw, ':')), ':');
        let out2 = join_list(&dedup_list(&split_list(&out1, ':')), ':');
        assert_eq!(out1, out2);
    }
}

#[test]
fn count_invariant_and_removed_count() {
    let parts = strings(&["a", "b", "a", "a", "c"]);
    let flags = vec![true, true, true, true, true];
    let outcome = process(&parts, false, &flags);
    assert!(outcome.kept.len() <= parts.len());
    assert_eq!(outcome.original_count(), 5);
    assert_eq!(outcome.kept_count(), 3);
    assert_eq!(outcome.removed_count(), 2);
    assert_eq!(outcome.removed_count(), parts.len() - outcome.kept.len());
}

#[test]
fn existence_filter_drops_missing_and_duplicates() {
    let parts = strings(&["/tmp", "/nonexistent-xyz", "/tmp"]);
    let flags = vec![true, false, true];
    let outcome = process(&parts, true, &flags);
    assert_eq!(outcome.kept, strings(&["/tmp"]));
    assert_eq!(
        outcome.verdicts,
        vec![Verdict::Kept, Verdict::SkippedMissing, Verdict::SkippedDuplicate]
    );
}

#[test]
fn filter_disabled_ignores_existence_flags() {
    let parts = strings(&["p", "q"]);
    let flags = vec![false, false];
    let outcome = process(&parts, false, &flags);
    assert_eq!(outcome.kept, strings(&["p", "q"]));
    assert_eq!(outcome.verdicts, vec![Verdict::Kept, Verdict::Kept]);
}

#[test]
fn verdicts_follow_candidate_order() {
    let parts = strings(&["a", "missing", "a", "b"]);
    let flags = vec![true, false, true, true];
    let outcome = process(&parts, true, &flags);
    assert_eq!(outcome.kept, strings(&["a", "b"]));
    assert_eq!(
        outcome.verdicts,
        vec![
            Verdict::Kept,
            Verdict::SkippedMissing,
            Verdict::SkippedDuplicate,
            Verdict::Kept,
        ]
    );
}

#[test]
fn windows_separator() {
    let parts = split_list("C;D;C", ';');
    assert_eq!(parts, strings(&["C", "D", "C"]));
    let kept = dedup_list(&parts);
    assert_eq!(join_list(&kept, ';'), "C;D");
}

#[test]
fn empty_segments_are_kept_and_deduplicated() {
    let parts = split_list("a::b", ':');
    assert_eq!(parts, strings(&["a", "", "b"]));
    let parts2 = split_list("::", ':');
    assert_eq!(parts2, strings(&["", "", ""]));
    let kept = dedup_list(&parts2);
    assert_eq!(kept, strings(&[""]));
    assert_eq!(join_list(&kept, ':'), "");
}

#[test]
fn join_inserts_separator_between_entries() {
    let parts = strings(&["a", "b", "c"]);
    assert_eq!(join_list(&parts, ':'), "a:b:c");
    let one = strings(&["solo"]);
    assert_eq!(join_list(&one, ':'), "solo");
}

#[test]
fn dedupe_value_runs_the_whole_pass() {
    assert_eq!(dedupe_value("/usr/bin:/usr/local/bin:/usr/bin", ':'), "/usr/bin:/usr/local/bin");
    assert_eq!(dedupe_value("", ':'), "");
    let once = dedupe_value("a::a:b", ':');
    assert_eq!(once, "a::b");
    assert_eq!(dedupe_value(&once, ':'), once);
}

#[test]
fn split_keeps_leading_and_trailing_empties() {
    assert_eq!(split_list(":a", ':'), strings(&["", "a"]));
    assert_eq!(split_list("a:", ':'), strings(&["a", ""]));
    assert_eq!(split_list(":", ':'), strings(&["", ""]));
}
