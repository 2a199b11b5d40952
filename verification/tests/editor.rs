use unrun::editor::{EditorEvent, EditorInput, EditorState, PuzzleTexts};

const SOLUTION: &str = "fn main() {
            let timeline = String::from(\"unrun\");
            let past = timeline.clone();
            println!(\"{}\", timeline);
        }";

fn first_puzzle() -> PuzzleTexts {
    PuzzleTexts {
        starter: "fn main() {\n    let timeline = String::from(\"unrun\");\n    let past = timeline;\n    println!(\"{}\", timeline);\n}".to_owned(),
        success: "OWNERSHIP RESTORED".to_owned(),
        hint: "the value was moved into the past".to_owned(),
    }
}

#[test]
fn editor_open_close_and_submit_transitions() {
    let puzzle = first_puzzle();
    let mut editor = EditorState::default();
    editor.open(0, &puzzle);
    assert!(editor.is_open());
    assert_eq!(editor.text(), puzzle.starter);

    assert_eq!(
        editor.update(
            &EditorInput {
                close: true,
                submit: true,
                ..EditorInput::default()
            },
            &puzzle,
            false,
        ),
        EditorEvent::Closed
    );
    assert!(!editor.is_open());
    assert!(editor.status().is_empty());

    editor.open(0, &puzzle);
    editor.set_text_for_test(SOLUTION);
    assert_eq!(
        editor.update(
            &EditorInput {
                submit: true,
                ..EditorInput::default()
            },
            &puzzle,
            true,
        ),
        EditorEvent::Submitted { accepted: true }
    );
    assert!(editor.is_open());
    assert!(!editor.status_is_error());
    assert_eq!(editor.status(), puzzle.success);
}

#[test]
fn submit_after_accept_is_ignored_until_reopened() {
    let puzzle = first_puzzle();
    let mut editor = EditorState::default();
    editor.open(0, &puzzle);
    editor.set_text_for_test(SOLUTION);
    let submit = EditorInput {
        submit: true,
        ..EditorInput::default()
    };

    assert_eq!(
        editor.update(&submit, &puzzle, true),
        EditorEvent::Submitted { accepted: true }
    );

    assert_eq!(editor.update(&submit, &puzzle, true), EditorEvent::Nothing);
    assert!(editor.is_open());
    assert!(!editor.status_is_error());
    assert_eq!(editor.status(), puzzle.success);

    // The starter code does not pass the check, so a second attempt fails.
    editor.open(0, &puzzle);
    assert_eq!(
        editor.update(&submit, &puzzle, false),
        EditorEvent::Submitted { accepted: false }
    );
    assert!(editor.status_is_error());
}

#[test]
fn opening_resets_text_and_shows_the_instructions() {
    let puzzle = first_puzzle();
    let mut editor = EditorState::default();
    editor.open(2, &puzzle);
    editor.set_text_for_test("scratch");
    editor.open(2, &puzzle);
    assert_eq!(editor.terminal(), 2);
    assert_eq!(editor.text(), puzzle.starter);
    assert_eq!(
        editor.status(),
        "Edit the Rust code - Ctrl+Enter or F5 to check, Esc to close."
    );
    assert!(!editor.status_is_error());
}

#[test]
fn failed_check_shows_the_hint() {
    let puzzle = first_puzzle();
    let mut editor = EditorState::default();
    editor.open(1, &puzzle);
    let submit = EditorInput {
        submit: true,
        ..EditorInput::default()
    };
    assert_eq!(
        editor.update(&submit, &puzzle, false),
        EditorEvent::Submitted { accepted: false }
    );
    assert_eq!(
        editor.status(),
        "CHECK FAILED - the value was moved into the past"
    );
    assert!(editor.status_is_error());
    // A failed check may be retried without reopening.
    assert_eq!(
        editor.update(&submit, &puzzle, true),
        EditorEvent::Submitted { accepted: true }
    );
}

#[test]
fn typing_applies_tab_enter_backspace_then_printable_characters() {
    let puzzle = first_puzzle();
    let mut editor = EditorState::default();
    editor.open(0, &puzzle);
    editor.set_text_for_test("ab");
    let event = editor.update(
        &EditorInput {
            tab: true,
            enter: true,
            backspace: true,
            characters: "x\ny\tz\r\u{7}é\u{9f}".to_owned(),
            ..EditorInput::default()
        },
        &puzzle,
        false,
    );
    assert_eq!(event, EditorEvent::Nothing);
    // Tab appends four spaces, Enter a newline, Backspace removes that newline;
    // then control characters are dropped from the typed text.
    assert_eq!(editor.text(), "ab    xyzé");
}

#[test]
fn backspace_on_empty_text_does_nothing() {
    let puzzle = first_puzzle();
    let mut editor = EditorState::default();
    editor.open(0, &puzzle);
    editor.set_text_for_test("");
    let event = editor.update(
        &EditorInput {
            backspace: true,
            ..EditorInput::default()
        },
        &puzzle,
        false,
    );
    assert_eq!(event, EditorEvent::Nothing);
    assert_eq!(editor.text(), "");
}
