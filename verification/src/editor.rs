//! The bonus-terminal code editor: opening, typing, submitting, closing.
use vstd::prelude::*;

use vstd::string::StringExecFns;

use crate::text::{char_is_control, clear_text, is_control, pop_char, push_char};

verus! {

broadcast use vstd::string::group_string_axioms;

/// One frame of editor input.
#[derive(Clone, Debug, Default, PartialEq, Eq)]
pub struct EditorInput {
    pub submit: bool,
    pub close: bool,
    pub tab: bool,
    pub enter: bool,
    pub backspace: bool,
    pub characters: String,
}

/// What an editor update did.
#[derive(Clone, Copy, Debug, PartialEq, Eq, Structural)]
pub enum EditorEvent {
    Nothing,
    Closed,
    Submitted { accepted: bool },
}

/// The texts a bonus puzzle shows in the editor.
pub struct PuzzleTexts {
    /// The code the editor starts with.
    pub starter: String,
    /// The status shown once the puzzle is solved.
    pub success: String,
    /// The hint shown after a failed check.
    pub hint: String,
}

/// What an editor holds.
pub struct EditorModel {
    pub open: bool,
    pub terminal: usize,
    pub text: Seq<char>,
    pub status: Seq<char>,
    pub status_is_error: bool,
    pub accepted: bool,
}

/// The status shown when the editor opens.
pub open spec fn opening_status() -> Seq<char> {
    "Edit the Rust code - Ctrl+Enter or F5 to check, Esc to close."@
}

/// The status shown after a failed check.
pub open spec fn failure_status(hint: Seq<char>) -> Seq<char> {
    "CHECK FAILED - "@ + hint
}

/// The characters of `typed` that the editor accepts: every character that
/// is not a control character (newlines, carriage returns and tabs included).
pub open spec fn printable(typed: Seq<char>) -> Seq<char>
    decreases typed.len(),
{
    if typed.len() == 0 {
        Seq::empty()
    } else if is_control(typed.last()) {
        printable(typed.drop_last())
    } else {
        printable(typed.drop_last()).push(typed.last())
    }
}

/// The text after one frame of typing: a tab inserts four spaces, enter a
/// newline, backspace removes the last character, then the printable typed
/// characters follow.
pub open spec fn typed_text(
    text: Seq<char>,
    tab: bool,
    enter: bool,
    backspace: bool,
    characters: Seq<char>,
) -> Seq<char> {
    let tabbed = if tab {
        text + "    "@
    } else {
        text
    };
    let entered = if enter {
        tabbed.push('\n')
    } else {
        tabbed
    };
    let erased = if backspace && entered.len() > 0 {
        entered.drop_last()
    } else {
        entered
    };
    erased + printable(characters)
}

/// The state of the bonus-terminal editor.
pub struct EditorState {
    open: bool,
    terminal: usize,
    text: String,
    status: String,
    status_is_error: bool,
    accepted: bool,
}

impl View for EditorState {
    type V = EditorModel;

    closed spec fn view(&self) -> EditorModel {
        EditorModel {
            open: self.open,
            terminal: self.terminal,
            text: self.text@,
            status: self.status@,
            status_is_error: self.status_is_error,
            accepted: self.accepted,
        }
    }
}

impl Default for EditorState {
    fn default() -> (editor: Self)
        ensures
            editor@ == (EditorModel {
                open: false,
                terminal: 0,
                text: Seq::empty(),
                status: Seq::empty(),
                status_is_error: false,
                accepted: false,
            }),
    {
        EditorState {
            open: false,
            terminal: 0,
            text: String::new(),
            status: String::new(),
            status_is_error: false,
            accepted: false,
        }
    }
}

impl EditorState {
    /// Opens the editor at `terminal` with that terminal's puzzle.
    pub fn open(&mut self, terminal: usize, puzzle: &PuzzleTexts)
        ensures
            final(self)@ == (EditorModel {
                open: true,
                terminal,
                text: puzzle.starter@,
                status: opening_status(),
                status_is_error: false,
                accepted: false,
            }),
    {
        self.open = true;
        self.terminal = terminal;
        self.text = puzzle.starter.clone();
        self.status = "Edit the Rust code - Ctrl+Enter or F5 to check, Esc to close.".to_owned();
        self.status_is_error = false;
        self.accepted = false;
    }

    /// Whether the editor is open.
    pub fn is_open(&self) -> (open: bool)
        ensures
            open == self@.open,
    {
        self.open
    }

    /// The terminal the editor was last opened at.
    pub fn terminal(&self) -> (terminal: usize)
        ensures
            terminal == self@.terminal,
    {
        self.terminal
    }

    /// The code being edited.
    pub fn text(&self) -> (text: &str)
        ensures
            text@ == self@.text,
    {
        self.text.as_str()
    }

    /// The status line.
    pub fn status(&self) -> (status: &str)
        ensures
            status@ == self@.status,
    {
        self.status.as_str()
    }

    /// Whether the status line reports a failed check.
    pub fn status_is_error(&self) -> (error: bool)
        ensures
            error == self@.status_is_error,
    {
        self.status_is_error
    }

    /// Replaces the code being edited.
    pub fn set_text_for_test(&mut self, text: &str)
        ensures
            final(self)@ == (EditorModel { text: text@, ..old(self)@ }),
    {
        self.text = text.to_owned();
    }

    /// Applies one frame of input. `puzzle` is the puzzle of the editor's
    /// terminal, and `solved` says whether the code held before this frame
    /// solves it.
    ///
    /// Closing wins over everything; a submission is ignored once the code was
    /// accepted; otherwise the frame's typing is applied.
    pub fn update(&mut self, input: &EditorInput, puzzle: &PuzzleTexts, solved: bool) -> (event:
        EditorEvent)
        ensures
            input.close ==> event == EditorEvent::Closed && final(self)@ == (EditorModel {
                open: false,
                status: Seq::empty(),
                ..old(self)@
            }),
            !input.close && input.submit && old(self)@.accepted ==> event == EditorEvent::Nothing
                && final(self)@ == old(self)@,
            !input.close && input.submit && !old(self)@.accepted ==> event
                == (EditorEvent::Submitted { accepted: solved }) && final(self)@ == (EditorModel {
                status: if solved {
                    puzzle.success@
                } else {
                    failure_status(puzzle.hint@)
                },
                status_is_error: !solved,
                accepted: solved,
                ..old(self)@
            }),
            !input.close && !input.submit ==> event == EditorEvent::Nothing && final(self)@ == (
            EditorModel {
                text: typed_text(
                    old(self)@.text,
                    input.tab,
                    input.enter,
                    input.backspace,
                    input.characters@,
                ),
                ..old(self)@
            }),
    {
        if input.close {
            self.close();
            return EditorEvent::Closed;
        }
        if input.submit {
            if self.accepted {
                return EditorEvent::Nothing;
            }
            let accepted = self.submit(puzzle, solved);
            if accepted {
                self.accepted = true;
            }
            return EditorEvent::Submitted { accepted };
        }
        if input.tab {
            self.text.append("    ");
        }
        if input.enter {
            push_char(&mut self.text, '\n');
        }
        if input.backspace {
            pop_char(&mut self.text);
        }
        let ghost base = self.text@;
        let ghost before = self@;
        let ghost mut consumed: Seq<char> = Seq::empty();
        for character in it: input.characters.as_str().chars()
            invariant
                it.seq() == input.characters@,
                consumed.len() == it.index(),
                forall|j: int| 0 <= j < it.index() ==> consumed[j] == #[trigger] it.seq()[j],
                self.text@ == base + printable(consumed),
                self@ == (EditorModel { text: self.text@, ..before }),
                it.index() == it.seq().len() ==> consumed == input.characters@,
        {
            proof {
                assert(character == it.seq()[consumed.len() as int]);
                assert(consumed.push(character).drop_last() =~= consumed);
            }
            let line_break_or_tab = character == '\n' || character == '\r' || character == '\t';
            if !line_break_or_tab && !char_is_control(character) {
                push_char(&mut self.text, character);
            }
            proof {
                consumed = consumed.push(character);
            }
            assert(it.index() == it.seq().len() ==> consumed =~= input.characters@);
        }
        EditorEvent::Nothing
    }

    /// Closes the editor and clears its status.
    fn close(&mut self)
        ensures
            final(self)@ == (EditorModel { open: false, status: Seq::empty(), ..old(self)@ }),
    {
        self.open = false;
        clear_text(&mut self.status);
    }

    /// Reports a check of the code: the success text when `solved`, the
    /// puzzle's hint otherwise.
    fn submit(&mut self, puzzle: &PuzzleTexts, solved: bool) -> (accepted: bool)
        ensures
            accepted == solved,
            final(self)@ == (EditorModel {
                status: if solved {
                    puzzle.success@
                } else {
                    failure_status(puzzle.hint@)
                },
                status_is_error: !solved,
                ..old(self)@
            }),
    {
        if solved {
            self.status = puzzle.success.clone();
            self.status_is_error = false;
        } else {
            let mut status = "CHECK FAILED - ".to_owned();
            status.append(puzzle.hint.as_str());
            self.status = status;
            self.status_is_error = true;
        }
        solved
    }
}

proof fn lemma_printable_keeps_ordinary(typed: Seq<char>)
    requires
        forall|i: int|
            0 <= i < typed.len() ==> 0x20 <= (#[trigger] typed[i] as u32) <= 0x7e || (typed[i]
                as u32) >= 0xa0,
    ensures
        printable(typed) == typed,
    decreases typed.len(),
{
    if typed.len() > 0 {
        lemma_printable_keeps_ordinary(typed.drop_last());
        assert(typed.drop_last().push(typed.last()) =~= typed);
    }
}

proof fn lemma_printable_drops_controls(typed: Seq<char>)
    requires
        forall|i: int|
            0 <= i < typed.len() ==> (#[trigger] typed[i] as u32) <= 0x1f || (0x7f <= (typed[i]
                as u32) && (typed[i] as u32) <= 0x9f),
    ensures
        printable(typed) == Seq::<char>::empty(),
    decreases typed.len(),
{
    if typed.len() > 0 {
        lemma_printable_drops_controls(typed.drop_last());
    }
}

/// Law: typing text made only of ordinary characters (the space, the other
/// printable ASCII characters U+0021 to U+007E, and everything from U+00A0
/// on) appends exactly that text, in order, with nothing dropped.
pub proof fn lemma_typing_appends_ordinary_characters(text: Seq<char>, typed: Seq<char>)
    requires
        forall|i: int|
            0 <= i < typed.len() ==> 0x20 <= (#[trigger] typed[i] as u32) <= 0x7e || (typed[i]
                as u32) >= 0xa0,
    ensures
        typed_text(text, false, false, false, typed) == text + typed,
{
    lemma_printable_keeps_ordinary(typed);
}

/// Law: typing one character appends it exactly when it is not a C0 or C1
/// control character (U+0000 to U+001F, U+007F to U+009F); a space is typed.
pub proof fn lemma_typing_one_character(text: Seq<char>, c: char)
    ensures
        typed_text(text, false, false, false, seq![c]) == if (c as u32) <= 0x1f || (0x7f <= (
        c as u32) && (c as u32) <= 0x9f) {
            text
        } else {
            text.push(c)
        },
{
    let typed = seq![c];
    if (c as u32) <= 0x1f || (0x7f <= (c as u32) && (c as u32) <= 0x9f) {
        lemma_printable_drops_controls(typed);
        assert(text + Seq::<char>::empty() =~= text);
    } else {
        lemma_printable_keeps_ordinary(typed);
        assert(text + typed =~= text.push(c));
    }
}

/// Law: typing only control characters (newlines, tabs and the rest of
/// U+0000 to U+001F and U+007F to U+009F) leaves the text as it was.
pub proof fn lemma_typing_control_characters_changes_nothing(text: Seq<char>, typed: Seq<char>)
    requires
        forall|i: int|
            0 <= i < typed.len() ==> (#[trigger] typed[i] as u32) <= 0x1f || (0x7f <= (typed[i]
                as u32) && (typed[i] as u32) <= 0x9f),
    ensures
        typed_text(text, false, false, false, typed) == text,
{
    lemma_printable_drops_controls(typed);
    assert(text + Seq::<char>::empty() =~= text);
}

/// Law: the editing keys. Tab appends four spaces, Enter a newline, and
/// Backspace removes the last character of a non-empty text and leaves an
/// empty one alone; each key alone, with nothing typed.
pub proof fn lemma_editing_keys(text: Seq<char>)
    ensures
        typed_text(text, true, false, false, Seq::empty()) == text + seq![' ', ' ', ' ', ' '],
        typed_text(text, false, true, false, Seq::empty()) == text.push('\n'),
        text.len() > 0 ==> typed_text(text, false, false, true, Seq::empty()) == text.drop_last(),
        text.len() == 0 ==> typed_text(text, false, false, true, Seq::empty()) == text,
        typed_text(text, false, true, true, Seq::empty()) == text,
{
    reveal_strlit("    ");
    assert(printable(Seq::<char>::empty()) == Seq::<char>::empty());
    assert(text + "    "@ + Seq::<char>::empty() =~= text + seq![' ', ' ', ' ', ' ']);
    assert(text.push('\n') + Seq::<char>::empty() =~= text.push('\n'));
    assert(text.drop_last() + Seq::<char>::empty() =~= text.drop_last());
    assert(text + Seq::<char>::empty() =~= text);
    assert(text.push('\n').drop_last() =~= text);
}

} // verus!
