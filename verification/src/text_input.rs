//! Editing of basic text-input fields.
//!
//! A text field reacts to key strokes only while its entity holds input
//! focus: printable text is appended, space and backspace edit the end of
//! the text, and the clear key empties it.

use vstd::prelude::*;
use vstd::string::StrSliceExecFns;
use vstd::string::StringExecFns;
use crate::focus::InputFocus;
use crate::input_map::{ButtonState, LogicalKey};

verus! {

/// A text field showing `placeholder_text` until something is typed.
#[derive(Debug)]
pub struct BasicTextInput {
    pub placeholder_text: String,
}

/// A pending change to a text field's content.
#[derive(Debug, PartialEq, Eq)]
pub enum TextInputChangeEvent {
    /// Text to add at the end.
    Append(String),
    /// Text replacing the whole content.
    Replace(String),
}

impl TextInputChangeEvent {
    /// Adds text to the change: appended text accumulates, while a
    /// replacement collapses into an append of the new text alone.
    pub fn append_str(&mut self, value: &str)
        ensures
            match *old(self) {
                TextInputChangeEvent::Append(cur) => match *final(self) {
                    TextInputChangeEvent::Append(s) => s@ == cur@ + value@,
                    _ => false,
                },
                TextInputChangeEvent::Replace(_) => match *final(self) {
                    TextInputChangeEvent::Append(s) => s@ == value@,
                    _ => false,
                },
            },
    {
        match self {
            TextInputChangeEvent::Append(current) => {
                current.append(value);
            },
            _ => {
                *self = TextInputChangeEvent::Append(value.to_owned());
            },
        }
    }
}

/// One edit of a text field's content.
#[derive(Debug)]
pub enum TextEdit {
    AppendText(String),
    AppendSpace,
    Clear,
    DeleteLast,
}

/// The edit a key stroke asks for: none for a key release that is not an
/// auto-repeat, and none for keys a text field does not react to.
pub open spec fn spec_text_edit(key: LogicalKey, repeat: bool, state: ButtonState) -> Option<
    TextEdit,
> {
    if !repeat && state != ButtonState::Pressed {
        None
    } else {
        match key {
            LogicalKey::Character(s) => Some(TextEdit::AppendText(s)),
            LogicalKey::Soft1 => Some(TextEdit::Clear),
            LogicalKey::Space => Some(TextEdit::AppendSpace),
            LogicalKey::Backspace => Some(TextEdit::DeleteLast),
            _ => None,
        }
    }
}

/// Decides the edit a key stroke asks for.
pub fn text_edit_for(key: &LogicalKey, repeat: bool, state: ButtonState) -> (r: Option<TextEdit>)
    ensures
        r == spec_text_edit(*key, repeat, state),
{
    if !repeat && !state.is_pressed() {
        return None;
    }
    match key {
        LogicalKey::Character(s) => Some(TextEdit::AppendText(s.clone())),
        LogicalKey::Soft1 => Some(TextEdit::Clear),
        LogicalKey::Space => Some(TextEdit::AppendSpace),
        LogicalKey::Backspace => Some(TextEdit::DeleteLast),
        _ => None,
    }
}

/// The content after an edit.
pub open spec fn spec_apply_edit(text: Seq<char>, edit: TextEdit) -> Seq<char> {
    match edit {
        TextEdit::AppendText(s) => text + s@,
        TextEdit::AppendSpace => text.push(' '),
        TextEdit::Clear => Seq::empty(),
        TextEdit::DeleteLast => if text.len() == 0 {
            text
        } else {
            text.drop_last()
        },
    }
}

/// Applies one edit to a text field's content.
pub fn apply_text_edit(text: &mut String, edit: &TextEdit)
    ensures
        final(text)@ == spec_apply_edit(old(text)@, *edit),
{
    match edit {
        TextEdit::AppendText(s) => {
            text.append(s.as_str());
        },
        TextEdit::AppendSpace => {
            text.append(" ");
            proof {
                reveal_strlit(" ");
                assert(text@ =~= old(text)@.push(' '));
            }
        },
        TextEdit::Clear => {
            *text = String::new();
        },
        TextEdit::DeleteLast => {
            let n = text.as_str().unicode_len();
            if n > 0 {
                let shortened = text.as_str().substring_char(0, n - 1).to_owned();
                *text = shortened;
                proof {
                    assert(text@ =~= old(text)@.drop_last());
                }
            }
        },
    }
}

/// Core of the text-input observer: a key stroke sent to `entity` edits
/// `text` exactly when that entity holds input focus and the key asks for
/// an edit.
pub fn basic_text_input_step(
    entity: u64,
    focus: &InputFocus,
    key: &LogicalKey,
    repeat: bool,
    state: ButtonState,
    text: &mut String,
)
    ensures
        final(text)@ == if focus.0 == Some(entity) {
            match spec_text_edit(*key, repeat, state) {
                Some(e) => spec_apply_edit(old(text)@, e),
                None => old(text)@,
            }
        } else {
            old(text)@
        },
{
    let focused = match focus.0 {
        Some(f) => f == entity,
        None => false,
    };
    if !focused {
        return ;
    }
    match text_edit_for(key, repeat, state) {
        Some(edit) => {
            apply_text_edit(text, &edit);
        },
        None => {},
    }
}

} // verus!
