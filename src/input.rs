//! A one-line text input dialog.

use vstd::prelude::*;
use vstd::string::*;

use crate::text::{pop_char, push_char};

verus! {

/// A key as the dialog sees it.
#[derive(Debug, Clone, Copy, PartialEq, Eq, Structural)]
pub enum DialogKey {
    Enter,
    Esc,
    Backspace,
    Char(char),
    Other,
}

/// A titled dialog that collects one line of text.
#[derive(Debug, Clone)]
pub struct InputDialog {
    pub title: String,
    pub value: String,
    pub visible: bool,
    /// Shown while the value is empty (the current setting, say).
    pub hint: Option<String>,
}

impl InputDialog {
    pub fn new(title: &str) -> (r: InputDialog)
        ensures
            r.title@ == title@,
            r.value@ == Seq::<char>::empty(),
            !r.visible,
            r.hint is None,
    {
        InputDialog { title: String::from_str(title), value: String::new(), visible: false, hint: None }
    }

    /// Opens the dialog with an empty value.
    pub fn show(&mut self)
        ensures
            final(self).value@ == Seq::<char>::empty(),
            final(self).visible,
            final(self).title == old(self).title,
            final(self).hint == old(self).hint,
    {
        self.value = String::new();
        self.visible = true;
    }

    pub fn set_value(&mut self, value: &str)
        ensures
            final(self).value@ == value@,
            final(self).visible == old(self).visible,
            final(self).title == old(self).title,
            final(self).hint == old(self).hint,
    {
        self.value = String::from_str(value);
    }

    pub fn set_hint(&mut self, hint: &str)
        ensures
            final(self).hint matches Some(h) && h@ == hint@,
            final(self).value == old(self).value,
            final(self).visible == old(self).visible,
            final(self).title == old(self).title,
    {
        self.hint = Some(String::from_str(hint));
    }

    /// Closes the dialog and forgets its hint.
    pub fn dismiss(&mut self)
        ensures
            !final(self).visible,
            final(self).hint is None,
            final(self).value == old(self).value,
            final(self).title == old(self).title,
    {
        self.visible = false;
        self.hint = None;
    }

    /// Applies a key: Enter closes the dialog and hands back the value, Esc
    /// closes it with nothing, Backspace deletes the last character and a
    /// character key appends it.
    pub fn handle_key(&mut self, key: DialogKey) -> (r: Option<String>)
        ensures
            final(self).title == old(self).title,
            key == DialogKey::Enter ==> (r matches Some(v) && v@ == old(self).value@) && !final(self).visible
                && final(self).hint is None && final(self).value == old(self).value,
            key == DialogKey::Esc ==> r is None && !final(self).visible && final(self).hint is None
                && final(self).value == old(self).value,
            key == DialogKey::Backspace ==> r is None && final(self).value@ == (if old(self).value@.len() > 0 {
                old(self).value@.drop_last()
            } else {
                old(self).value@
            }) && final(self).visible == old(self).visible && final(self).hint == old(self).hint,
            key matches DialogKey::Char(c) ==> r is None && final(self).value@ == old(self).value@.push(c)
                && final(self).visible == old(self).visible && final(self).hint == old(self).hint,
            key == DialogKey::Other ==> r is None && final(self).value == old(self).value
                && final(self).visible == old(self).visible && final(self).hint == old(self).hint,
    {
        match key {
            DialogKey::Enter => {
                let val = self.value.clone();
                self.dismiss();
                Some(val)
            },
            DialogKey::Esc => {
                self.dismiss();
                None
            },
            DialogKey::Backspace => {
                pop_char(&mut self.value);
                None
            },
            DialogKey::Char(c) => {
                push_char(&mut self.value, c);
                None
            },
            DialogKey::Other => None,
        }
    }
}

} // verus!
