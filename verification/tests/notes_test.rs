use midianimator::notes::{name_to_note, note_to_name, try_name_to_note};

#[test]
fn middle_c_is_c3() {
    assert_eq!(note_to_name(60), "C3");
    assert_eq!(name_to_note("C3"), 60);
}

#[test]
fn lowest_and_highest_notes() {
    assert_eq!(note_to_name(0), "C-2");
    assert_eq!(note_to_name(127), "G8");
    assert_eq!(note_to_name(1), "C#-2");
    assert_eq!(name_to_note("C-2"), 0);
    assert_eq!(name_to_note("G8"), 127);
    assert_eq!(name_to_note("C#-2"), 1);
}

#[test]
fn names_that_are_no_notes() {
    assert_eq!(try_name_to_note(""), None);
    assert_eq!(try_name_to_note("c3"), None);
    assert_eq!(try_name_to_note("H2"), None);
    assert_eq!(try_name_to_note("C"), None);
    assert_eq!(try_name_to_note("C-#1"), None);
    assert_eq!(try_name_to_note("C99999999999"), None);
    assert_eq!(try_name_to_note("C+3"), Some(60));
}
