use fcs::codes::Codes;
use fcs::dates::{upper_first, year_string};
use fcs::get_new_name;

fn ab_codes() -> Codes {
    let mut codes = Codes::new();
    codes.insert("a".to_string(), "A".to_string());
    codes.insert("b".to_string(), "B".to_string());
    codes
}

#[test]
fn compose_consumes_segments_down_to_the_threshold() {
    let codes = ab_codes();
    let dest = vec!["destRoot".to_string()];
    let (leaf, parent) = get_new_name(
        "a.b.c..0", &dest, &codes, None, false, '.', 1, '{', '}', ',',
    )
    .unwrap();
    // Segments `a`, `b` and `c` are consumed; the tail keeps one separator's
    // worth of name, here `.0`, untouched as the leaf.
    assert_eq!(parent, vec!["destRoot", "A", "B", "c"]);
    assert_eq!(leaf, vec!["destRoot", "A", "B", "c", ".0"]);
}

#[test]
fn compose_leaves_a_short_name_alone() {
    let codes = ab_codes();
    let dest = vec!["d".to_string()];
    let (leaf, parent) =
        get_new_name("a.pdf", &dest, &codes, None, false, '.', 1, '{', '}', ',').unwrap();
    assert_eq!(parent, vec!["d"]);
    assert_eq!(leaf, vec!["d", "a.pdf"]);
}

#[test]
fn compose_expands_variable_spans_in_segments() {
    let mut codes = Codes::new();
    codes.insert("fr".to_string(), "French".to_string());
    codes.insert("hst".to_string(), "History".to_string());
    let dest = vec!["root".to_string()];
    let (leaf, parent) = get_new_name(
        "{fr} {hst}.notes.txt",
        &dest,
        &codes,
        None,
        false,
        '.',
        1,
        '{',
        '}',
        ',',
    )
    .unwrap();
    assert_eq!(parent, vec!["root", "French History"]);
    assert_eq!(leaf, vec!["root", "French History", "notes.txt"]);
}

#[test]
fn compose_history_spans_segments() {
    // The second segment addresses the first one by a back-reference run.
    let mut codes = Codes::new();
    codes.insert("sh".to_string(), "Shell".to_string());
    codes.insert("shsh".to_string(), "Nested".to_string());
    let dest = vec!["r".to_string()];
    let (_, parent) =
        get_new_name("sh.{,,}.f.txt", &dest, &codes, None, false, '.', 1, '{', '}', ',').unwrap();
    // Segment one: `sh` -> `Shell`, history holds `sh`.
    // Segment two: token `,,` is an overlong run over a one-entry history:
    // the longest addressable run (one) resolves twice to `sh`, giving
    // `shsh`, which the code table maps to `Nested`.
    assert_eq!(parent, vec!["r", "Shell", "Nested"]);
}

#[test]
fn compose_with_timeinfo_inserts_year_and_month() {
    let codes = ab_codes();
    let dest = vec!["root".to_string()];
    let r = get_new_name(
        "a.b.file.txt",
        &dest,
        &codes,
        Some(0),
        true,
        '.',
        1,
        '{',
        '}',
        ',',
    );
    let (leaf, parent) = r.expect("epoch zero lies within the calendar");
    // root, year, A, B, month — the year right after the root, the month
    // last before the leaf.
    assert_eq!(parent.len(), 5);
    assert_eq!(parent[0], "root");
    assert!(parent[1].chars().all(|c| c.is_ascii_digit()));
    assert_eq!(&parent[2..4], &["A".to_string(), "B".to_string()]);
    assert!(!parent[4].is_empty());
    assert!(!parent[4].chars().next().unwrap().is_ascii_lowercase());
    assert_eq!(leaf[..5], parent[..]);
    assert_eq!(leaf[5], "file.txt");
}

#[test]
fn compose_rejects_a_timestamp_beyond_the_calendar() {
    let codes = ab_codes();
    let dest = vec!["root".to_string()];
    let r = get_new_name(
        "a.b.file.txt",
        &dest,
        &codes,
        Some(u64::MAX),
        true,
        '.',
        1,
        '{',
        '}',
        ',',
    );
    assert_eq!(r.unwrap_err(), fcs::dates::DateError::TimestampOutOfRange);

    // The calendar's exact edge: its last second passes, the next fails.
    let r = get_new_name(
        "a.b.file.txt",
        &dest,
        &codes,
        Some(fcs::dates::MAX_CALENDAR_SECOND),
        true,
        '.',
        1,
        '{',
        '}',
        ',',
    );
    assert!(r.is_ok(), "edge second failed: {:?}", r);
    let r = get_new_name(
        "a.b.file.txt",
        &dest,
        &codes,
        Some(fcs::dates::MAX_CALENDAR_SECOND + 1),
        true,
        '.',
        1,
        '{',
        '}',
        ',',
    );
    assert_eq!(r.unwrap_err(), fcs::dates::DateError::TimestampOutOfRange);
}

#[test]
fn year_strings_are_decimal() {
    assert_eq!(year_string(2024), "2024");
    assert_eq!(year_string(0), "0");
    assert_eq!(year_string(-5), "-5");
    assert_eq!(year_string(1969), "1969");
}

#[test]
fn month_names_are_capitalized() {
    assert_eq!(upper_first("january"), "January");
    assert_eq!(upper_first("August"), "August");
    assert_eq!(upper_first(""), "");
    assert_eq!(upper_first("été"), "été");
}
