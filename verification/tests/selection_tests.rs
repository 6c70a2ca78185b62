use oszdl::selection::parse_selection;
use oszdl::selection::select_entries;
use oszdl::selection::SelectionError;
use oszdl::response::Beatmap;

fn entry(id: usize, artist: &str, title: &str, creator: &str) -> Beatmap {
    Beatmap {
        artist: artist.to_string(),
        creator: creator.to_string(),
        title: title.to_string(),
        id,
    }
}

#[test]
fn parses_singles_and_ranges_in_order() {
    let r = parse_selection("1 3-5 11", 11);
    assert_eq!(r.unwrap_or_default(), vec![0, 2, 3, 4, 10]);
}

#[test]
fn reversed_range_is_invalid() {
    match parse_selection("5-3", 10) {
        Err(SelectionError::InvalidRange(t)) => assert_eq!(t, "5-3"),
        _ => panic!("expected InvalidRange"),
    }
}

#[test]
fn zero_is_out_of_range() {
    match parse_selection("0", 5) {
        Err(SelectionError::OutOfRange(v, n)) => {
            assert_eq!(v, 0);
            assert_eq!(n, 5);
        },
        _ => panic!("expected OutOfRange"),
    }
}

#[test]
fn past_end_is_out_of_range() {
    match parse_selection("6", 5) {
        Err(SelectionError::OutOfRange(v, n)) => {
            assert_eq!(v, 6);
            assert_eq!(n, 5);
        },
        _ => panic!("expected OutOfRange"),
    }
}

#[test]
fn empty_input_is_empty_selection() {
    assert_eq!(parse_selection("", 7).unwrap_or_default(), Vec::<usize>::new());
    assert_eq!(parse_selection("   \t  ", 7).unwrap_or_default(), Vec::<usize>::new());
}

#[test]
fn adjacent_boundary_ranges() {
    assert_eq!(parse_selection("1-1", 3).unwrap_or_default(), vec![0]);
    assert_eq!(parse_selection("3-3", 3).unwrap_or_default(), vec![2]);
    assert_eq!(parse_selection("1-3", 3).unwrap_or_default(), vec![0, 1, 2]);
}

#[test]
fn malformed_range_tokens() {
    match parse_selection("-3", 10) {
        Err(SelectionError::InvalidRange(t)) => assert_eq!(t, "-3"),
        _ => panic!("expected InvalidRange"),
    }
    match parse_selection("3-", 10) {
        Err(SelectionError::InvalidRange(t)) => assert_eq!(t, "3-"),
        _ => panic!("expected InvalidRange"),
    }
    match parse_selection("a-b", 10) {
        Err(SelectionError::InvalidRange(t)) => assert_eq!(t, "a-b"),
        _ => panic!("expected InvalidRange"),
    }
    match parse_selection("1-2-3", 10) {
        Err(SelectionError::InvalidRange(t)) => assert_eq!(t, "1-2-3"),
        _ => panic!("expected InvalidRange"),
    }
}

#[test]
fn non_numeric_single_token() {
    match parse_selection("x", 10) {
        Err(SelectionError::InvalidIndex(t)) => assert_eq!(t, "x"),
        _ => panic!("expected InvalidIndex"),
    }
}

#[test]
fn huge_number_is_invalid_index() {
    match parse_selection("99999999999999999999999999", 10) {
        Err(SelectionError::InvalidIndex(t)) => assert_eq!(t, "99999999999999999999999999"),
        _ => panic!("expected InvalidIndex"),
    }
}

#[test]
fn range_bounds_checked_against_count() {
    match parse_selection("2-6", 5) {
        Err(SelectionError::OutOfRange(v, n)) => {
            assert_eq!(v, 6);
            assert_eq!(n, 5);
        },
        _ => panic!("expected OutOfRange"),
    }
    match parse_selection("0-2", 5) {
        Err(SelectionError::OutOfRange(v, n)) => {
            assert_eq!(v, 0);
            assert_eq!(n, 5);
        },
        _ => panic!("expected OutOfRange"),
    }
}

#[test]
fn duplicates_collapse_keeping_first_place() {
    assert_eq!(parse_selection("1 1 1-2", 5).unwrap_or_default(), vec![0, 1]);
    assert_eq!(parse_selection("2-4 3-5", 5).unwrap_or_default(), vec![1, 2, 3, 4]);
    assert_eq!(parse_selection("3 1", 5).unwrap_or_default(), vec![2, 0]);
}

#[test]
fn first_bad_token_wins() {
    match parse_selection("1 bad 5-3", 10) {
        Err(SelectionError::InvalidIndex(t)) => assert_eq!(t, "bad"),
        _ => panic!("expected InvalidIndex for the first bad token"),
    }
}

#[test]
fn selected_entries_follow_indices() {
    let entries = vec![
        entry(10, "a", "t", "c"),
        entry(20, "b", "u", "d"),
        entry(30, "e", "v", "f"),
    ];
    let indices = parse_selection("3 1", 3).unwrap_or_default();
    let picked = select_entries(&entries, &indices);
    assert_eq!(picked.len(), 2);
    assert_eq!(picked[0].id, 30);
    assert_eq!(picked[1].id, 10);
}
