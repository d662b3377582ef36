//! The mode state machine's vocabulary: the modes themselves, the
//! discrete intents the input layer produces, and the single editing
//! step applied to a text-entry line buffer.
use vstd::prelude::*;

verus! {

/// The three modes the engine can be in. `Editing` is the transient
/// text-entry sub-mode entered from `Normal` for the new-task and
/// edit-task intents.
#[derive(Clone, Copy, Debug, PartialEq, Eq, Structural)]
pub enum Mode {
    Normal,
    Working,
    Editing,
}

/// The label the render layer shows for a mode.
pub fn mode_label(mode: Mode) -> (r: &'static str)
    ensures
        mode is Normal ==> r@ == "NORMAL"@,
        mode is Working ==> r@ == "WORKING"@,
        mode is Editing ==> r@ == "EDITING"@,
{
    match mode {
        Mode::Normal => "NORMAL",
        Mode::Working => "WORKING",
        Mode::Editing => "EDITING",
    }
}

/// A discrete user action, abstracted away from raw input events.
/// Anything the input layer cannot map onto this vocabulary is simply
/// not handed to the engine.
#[derive(Debug, Clone, PartialEq)]
pub enum Intent {
    NavigateUp,
    NavigateDown,
    ReorderUp,
    ReorderDown,
    IncrementEstimate,
    DecrementEstimate,
    NewTask,
    EditTask,
    SubmitText(String),
    Cancel,
    ToggleWorking,
    DeleteTask,
    Terminate,
}

/// Mathematical model of an intent: the submitted text as a sequence of
/// characters.
pub enum IntentView {
    NavigateUp,
    NavigateDown,
    ReorderUp,
    ReorderDown,
    IncrementEstimate,
    DecrementEstimate,
    NewTask,
    EditTask,
    SubmitText(Seq<char>),
    Cancel,
    ToggleWorking,
    DeleteTask,
    Terminate,
}

impl View for Intent {
    type V = IntentView;

    open spec fn view(&self) -> IntentView {
        match self {
            Intent::NavigateUp => IntentView::NavigateUp,
            Intent::NavigateDown => IntentView::NavigateDown,
            Intent::ReorderUp => IntentView::ReorderUp,
            Intent::ReorderDown => IntentView::ReorderDown,
            Intent::IncrementEstimate => IntentView::IncrementEstimate,
            Intent::DecrementEstimate => IntentView::DecrementEstimate,
            Intent::NewTask => IntentView::NewTask,
            Intent::EditTask => IntentView::EditTask,
            Intent::SubmitText(s) => IntentView::SubmitText(s@),
            Intent::Cancel => IntentView::Cancel,
            Intent::ToggleWorking => IntentView::ToggleWorking,
            Intent::DeleteTask => IntentView::DeleteTask,
            Intent::Terminate => IntentView::Terminate,
        }
    }
}

/// One key of the text-entry loop, already stripped of modifiers.
#[derive(Clone, Copy, Debug, PartialEq, Eq, Structural)]
pub enum EditKey {
    Enter,
    Char(char),
    Backspace,
    Other,
}

/// The line buffer after one text-entry key: unchanged and finished on
/// enter, one character appended on a character key, the last character
/// removed (if any) on backspace, untouched otherwise.
pub open spec fn line_edit_spec(line: Seq<char>, key: EditKey) -> Seq<char> {
    match key {
        EditKey::Enter => line,
        EditKey::Char(c) => line.push(c),
        EditKey::Backspace => if line.len() > 0 {
            line.drop_last()
        } else {
            line
        },
        EditKey::Other => line,
    }
}

/// Applies one text-entry key to the line buffer; returns whether the
/// entry is finished.
pub fn line_edit_step(line: &mut Vec<char>, key: EditKey) -> (done: bool)
    requires
        old(line)@.len() < usize::MAX,
    ensures
        final(line)@ == line_edit_spec(old(line)@, key),
        done == (key is Enter),
{
    match key {
        EditKey::Enter => true,
        EditKey::Char(c) => {
            line.push(c);
            false
        },
        EditKey::Backspace => {
            let _dropped = line.pop();
            assert(final(line)@ =~= line_edit_spec(old(line)@, key));
            false
        },
        EditKey::Other => false,
    }
}

} // verus!
