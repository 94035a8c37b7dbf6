//! The dialogs shown over the main view and how they answer keys: each key
//! gives the next dialog and what the application has to do.

use vstd::prelude::*;
use crate::app_logic::{confirm_dialog_executes, export_modal_selection, trimmed, typed_confirm_executes};
use crate::menu::{Key, KeyPress};
use crate::text::{chars_of, push_char, string_of};
use crate::theme::{theme_list, themes, Theme};

verus! {

/// What a path-input dialog is for.
#[derive(Debug, Clone, Copy, PartialEq, Eq, Structural)]
pub enum PathInputPurpose {
    Goto,
    Filter,
}

/// The open dialog, if any.
#[derive(Debug, Clone)]
pub enum Modal {
    Closed,
    Help,
    Confirm { title: String, message: String, selected: usize },
    TypedConfirm { message: String, confirm_text: String, input: String, selected: usize },
    PathInput { prompt: String, input: String, purpose: PathInputPurpose, selected: usize },
    Export { path_input: String, selected: usize },
    ScanErrors { errors: Vec<String>, scroll: u16 },
    Message { title: String, message: String },
    /// `original` is the theme shown when the picker opened, restored on Esc.
    ThemePicker { selected: usize, original: Theme },
}

/// What the application does after a dialog took a key.
#[derive(Debug, Clone)]
pub enum ModalEffect {
    /// No dialog is open: the key goes to the main view.
    Unhandled,
    /// The dialog took the key; nothing else to do.
    Nothing,
    /// Run the pending action.
    ExecutePending,
    /// Drop the pending action.
    DropPending,
    /// Scan the typed path.
    StartScan(String),
    /// Filter by the typed text.
    ApplyFilter(String),
    /// Export in `fmt` (redacted or not) to the typed path, before `~`
    /// expansion.
    Export { fmt: &'static str, path_input: String, redact: bool },
    /// Show this theme.
    SetTheme(Theme),
}

/// `s` without its last character.
pub open spec fn pop_spec(s: Seq<char>) -> Seq<char> {
    if s.len() > 0 { s.drop_last() } else { s }
}

/// `s` without its last character (unchanged when empty).
pub fn pop_char(s: &String) -> (r: String)
    ensures
        r@ == pop_spec(s@),
{
    let cs = chars_of(s.as_str());
    let mut out: Vec<char> = Vec::new();
    let n = if cs.len() > 0 { cs.len() - 1 } else { 0 };
    for i in 0..n
        invariant
            n <= cs@.len(),
            out@ == cs@.take(i as int),
    {
        out.push(cs[i]);
        assert(cs@.take(i + 1) == cs@.take(i as int).push(cs@[i as int]));
    }
    assert(out@ =~= pop_spec(s@));
    string_of(&out)
}

/// `s` with `c` appended.
pub fn with_char(s: &String, c: char) -> (r: String)
    ensures
        r@ == s@.push(c),
{
    let mut t = s.clone();
    push_char(&mut t, c);
    t
}

/// Keys that move left, right, up or down in a dialog without a text
/// field. A dialog with a text field takes every letter, so there only the
/// arrow keys move between its buttons.
pub open spec fn is_left(k: Key) -> bool {
    k == Key::Left || k == Key::Char('h')
}

pub open spec fn is_right(k: Key) -> bool {
    k == Key::Right || k == Key::Char('l')
}

pub open spec fn is_up(k: Key) -> bool {
    k == Key::Up || k == Key::Char('k')
}

pub open spec fn is_down(k: Key) -> bool {
    k == Key::Down || k == Key::Char('j')
}

/// The value of a dialog: its strings as character sequences.
pub enum ModalView {
    Closed,
    Help,
    Confirm { title: Seq<char>, message: Seq<char>, selected: usize },
    TypedConfirm { message: Seq<char>, confirm_text: Seq<char>, input: Seq<char>, selected: usize },
    PathInput { prompt: Seq<char>, input: Seq<char>, purpose: PathInputPurpose, selected: usize },
    Export { path_input: Seq<char>, selected: usize },
    ScanErrors { errors: Seq<Seq<char>>, scroll: u16 },
    Message { title: Seq<char>, message: Seq<char> },
    ThemePicker { selected: usize, original: Theme },
}

/// The value of an effect.
pub enum EffectView {
    Unhandled,
    Nothing,
    ExecutePending,
    DropPending,
    StartScan(Seq<char>),
    ApplyFilter(Seq<char>),
    Export { fmt: Seq<char>, path_input: Seq<char>, redact: bool },
    SetTheme(Theme),
}

impl Modal {
    pub open spec fn view(&self) -> ModalView {
        match *self {
            Modal::Closed => ModalView::Closed,
            Modal::Help => ModalView::Help,
            Modal::Confirm { title, message, selected } => ModalView::Confirm { title: title@, message: message@, selected },
            Modal::TypedConfirm { message, confirm_text, input, selected } =>
                ModalView::TypedConfirm { message: message@, confirm_text: confirm_text@, input: input@, selected },
            Modal::PathInput { prompt, input, purpose, selected } =>
                ModalView::PathInput { prompt: prompt@, input: input@, purpose, selected },
            Modal::Export { path_input, selected } => ModalView::Export { path_input: path_input@, selected },
            Modal::ScanErrors { errors, scroll } => ModalView::ScanErrors { errors: crate::text::strs(errors@), scroll },
            Modal::Message { title, message } => ModalView::Message { title: title@, message: message@ },
            Modal::ThemePicker { selected, original } => ModalView::ThemePicker { selected, original },
        }
    }
}

impl ModalEffect {
    pub open spec fn view(&self) -> EffectView {
        match *self {
            ModalEffect::Unhandled => EffectView::Unhandled,
            ModalEffect::Nothing => EffectView::Nothing,
            ModalEffect::ExecutePending => EffectView::ExecutePending,
            ModalEffect::DropPending => EffectView::DropPending,
            ModalEffect::StartScan(p) => EffectView::StartScan(p@),
            ModalEffect::ApplyFilter(t) => EffectView::ApplyFilter(t@),
            ModalEffect::Export { fmt, path_input, redact } => EffectView::Export { fmt: fmt@, path_input: path_input@, redact },
            ModalEffect::SetTheme(t) => EffectView::SetTheme(t),
        }
    }
}

/// Keys a dialog can take without overflow or an index past the theme
/// list: a scroll already at its maximum cannot move down; in the theme
/// picker, moving up needs a position at most one past the list, and moving
/// down a position that can still grow.
pub open spec fn modal_key_ok(m: ModalView, k: KeyPress) -> bool {
    match m {
        ModalView::ScanErrors { scroll, .. } => is_down(k.code) ==> scroll < u16::MAX,
        ModalView::ThemePicker { selected, .. } => {
            &&& is_up(k.code) ==> selected <= theme_list().len()
            &&& is_down(k.code) ==> selected < usize::MAX
        },
        _ => true,
    }
}

/// A dialog's answer to a key: the next dialog and the effect.
pub open spec fn modal_key_spec(m: ModalView, k: KeyPress) -> (ModalView, EffectView) {
    let c = k.code;
    match m {
        ModalView::Closed => (m, EffectView::Unhandled),
        ModalView::Help => {
            if c == Key::Esc || c == Key::Enter || c == Key::Char('?') {
                (ModalView::Closed, EffectView::Nothing)
            } else {
                (m, EffectView::Nothing)
            }
        },
        ModalView::Confirm { title, message, selected } => {
            if is_left(c) {
                (ModalView::Confirm { title, message, selected: 0 }, EffectView::Nothing)
            } else if is_right(c) {
                (ModalView::Confirm { title, message, selected: 1 }, EffectView::Nothing)
            } else if c == Key::Enter {
                (ModalView::Closed, if selected == 0 { EffectView::ExecutePending } else { EffectView::DropPending })
            } else if c == Key::Esc {
                (ModalView::Closed, EffectView::DropPending)
            } else {
                (m, EffectView::Nothing)
            }
        },
        ModalView::TypedConfirm { message, confirm_text, input, selected } => {
            if c == Key::Left {
                (ModalView::TypedConfirm { message, confirm_text, input, selected: 0 }, EffectView::Nothing)
            } else if c == Key::Right {
                (ModalView::TypedConfirm { message, confirm_text, input, selected: 1 }, EffectView::Nothing)
            } else if c == Key::Enter {
                if selected == 0 && trimmed(input) == confirm_text {
                    (ModalView::Closed, EffectView::ExecutePending)
                } else if selected == 1 {
                    (ModalView::Closed, EffectView::DropPending)
                } else {
                    (m, EffectView::Nothing)
                }
            } else if c == Key::Esc {
                (ModalView::Closed, EffectView::DropPending)
            } else if c == Key::Backspace {
                (ModalView::TypedConfirm { message, confirm_text, input: pop_spec(input), selected }, EffectView::Nothing)
            } else if let Key::Char(ch) = c {
                (ModalView::TypedConfirm { message, confirm_text, input: input.push(ch), selected }, EffectView::Nothing)
            } else {
                (m, EffectView::Nothing)
            }
        },
        ModalView::PathInput { prompt, input, purpose, selected } => {
            if c == Key::Enter {
                (ModalView::Closed, match purpose {
                    PathInputPurpose::Goto => if input.len() > 0 { EffectView::StartScan(input) } else { EffectView::Nothing },
                    PathInputPurpose::Filter => EffectView::ApplyFilter(input),
                })
            } else if c == Key::Esc {
                (ModalView::Closed, EffectView::Nothing)
            } else if c == Key::Backspace {
                (ModalView::PathInput { prompt, input: pop_spec(input), purpose, selected }, EffectView::Nothing)
            } else if let Key::Char(ch) = c {
                (ModalView::PathInput { prompt, input: input.push(ch), purpose, selected }, EffectView::Nothing)
            } else {
                (m, EffectView::Nothing)
            }
        },
        ModalView::Export { path_input, selected } => {
            if c == Key::Left {
                (ModalView::Export { path_input, selected: if selected > 0 { (selected - 1) as usize } else { 0 } }, EffectView::Nothing)
            } else if c == Key::Right {
                (ModalView::Export { path_input, selected: if selected < 3 { (selected + 1) as usize } else { 3 } }, EffectView::Nothing)
            } else if c == Key::Enter {
                (ModalView::Closed, if selected == 0 {
                    EffectView::Export { fmt: "text"@, path_input, redact: false }
                } else if selected == 1 {
                    EffectView::Export { fmt: "csv"@, path_input, redact: false }
                } else if selected == 2 {
                    EffectView::Export { fmt: "csv"@, path_input, redact: true }
                } else {
                    EffectView::Nothing
                })
            } else if c == Key::Esc {
                (ModalView::Closed, EffectView::Nothing)
            } else if c == Key::Backspace {
                (ModalView::Export { path_input: pop_spec(path_input), selected }, EffectView::Nothing)
            } else if let Key::Char(ch) = c {
                (ModalView::Export { path_input: path_input.push(ch), selected }, EffectView::Nothing)
            } else {
                (m, EffectView::Nothing)
            }
        },
        ModalView::ScanErrors { errors, scroll } => {
            if c == Key::Enter || c == Key::Esc {
                (ModalView::Closed, EffectView::Nothing)
            } else if is_down(c) {
                (ModalView::ScanErrors { errors, scroll: (scroll + 1) as u16 }, EffectView::Nothing)
            } else if is_up(c) {
                (ModalView::ScanErrors { errors, scroll: if scroll > 0 { (scroll - 1) as u16 } else { 0 } }, EffectView::Nothing)
            } else {
                (m, EffectView::Nothing)
            }
        },
        ModalView::Message { .. } => {
            if c == Key::Esc || c == Key::Enter {
                (ModalView::Closed, EffectView::Nothing)
            } else {
                (m, EffectView::Nothing)
            }
        },
        ModalView::ThemePicker { selected, original } => {
            if is_up(c) {
                let s: usize = if selected > 0 { (selected - 1) as usize } else { 0 };
                (ModalView::ThemePicker { selected: s, original }, EffectView::SetTheme(theme_list()[s as int]))
            } else if is_down(c) {
                let last = theme_list().len() - 1;
                let s: usize = if selected + 1 < last { (selected + 1) as usize } else { last as usize };
                (ModalView::ThemePicker { selected: s, original }, EffectView::SetTheme(theme_list()[s as int]))
            } else if c == Key::Enter {
                (ModalView::Closed, EffectView::Nothing)
            } else if c == Key::Esc {
                (ModalView::Closed, EffectView::SetTheme(original))
            } else {
                (m, EffectView::Nothing)
            }
        },
    }
}

fn key_is(k: Key, a: Key, ch: char) -> (r: bool)
    requires
        a == Key::Left || a == Key::Right || a == Key::Up || a == Key::Down,
    ensures
        r == (k == a || k == Key::Char(ch)),
{
    match k {
        Key::Char(c) => c == ch,
        Key::Left => a == Key::Left,
        Key::Right => a == Key::Right,
        Key::Up => a == Key::Up,
        Key::Down => a == Key::Down,
        _ => false,
    }
}

/// How the open dialog answers a key (see `modal_key_spec`). Takes the
/// dialog and returns the next one with the effect to carry out.
pub fn modal_key(modal: Modal, key: KeyPress) -> (r: (Modal, ModalEffect))
    requires
        modal_key_ok(modal.view(), key),
    ensures
        (r.0.view(), r.1.view()) == modal_key_spec(modal.view(), key),
{
    let c = key.code;
    match modal {
        Modal::Closed => (Modal::Closed, ModalEffect::Unhandled),
        Modal::Help => {
            if c == Key::Esc || c == Key::Enter || c == Key::Char('?') {
                (Modal::Closed, ModalEffect::Nothing)
            } else {
                (Modal::Help, ModalEffect::Nothing)
            }
        },
        Modal::Confirm { title, message, selected } => {
            if key_is(c, Key::Left, 'h') {
                (Modal::Confirm { title, message, selected: 0 }, ModalEffect::Nothing)
            } else if key_is(c, Key::Right, 'l') {
                (Modal::Confirm { title, message, selected: 1 }, ModalEffect::Nothing)
            } else if c == Key::Enter {
                if confirm_dialog_executes(selected) {
                    (Modal::Closed, ModalEffect::ExecutePending)
                } else {
                    (Modal::Closed, ModalEffect::DropPending)
                }
            } else if c == Key::Esc {
                (Modal::Closed, ModalEffect::DropPending)
            } else {
                (Modal::Confirm { title, message, selected }, ModalEffect::Nothing)
            }
        },
        Modal::TypedConfirm { message, confirm_text, input, selected } => {
            if c == Key::Left {
                (Modal::TypedConfirm { message, confirm_text, input, selected: 0 }, ModalEffect::Nothing)
            } else if c == Key::Right {
                (Modal::TypedConfirm { message, confirm_text, input, selected: 1 }, ModalEffect::Nothing)
            } else if c == Key::Enter {
                if typed_confirm_executes(selected, input.as_str(), confirm_text.as_str()) {
                    (Modal::Closed, ModalEffect::ExecutePending)
                } else if selected == 1 {
                    (Modal::Closed, ModalEffect::DropPending)
                } else {
                    (Modal::TypedConfirm { message, confirm_text, input, selected }, ModalEffect::Nothing)
                }
            } else if c == Key::Esc {
                (Modal::Closed, ModalEffect::DropPending)
            } else if c == Key::Backspace {
                let input = pop_char(&input);
                (Modal::TypedConfirm { message, confirm_text, input, selected }, ModalEffect::Nothing)
            } else if let Key::Char(ch) = c {
                let input = with_char(&input, ch);
                (Modal::TypedConfirm { message, confirm_text, input, selected }, ModalEffect::Nothing)
            } else {
                (Modal::TypedConfirm { message, confirm_text, input, selected }, ModalEffect::Nothing)
            }
        },
        Modal::PathInput { prompt, input, purpose, selected } => {
            if c == Key::Enter {
                let eff = match purpose {
                    PathInputPurpose::Goto => if input.as_str().is_empty() { ModalEffect::Nothing } else { ModalEffect::StartScan(input) },
                    PathInputPurpose::Filter => ModalEffect::ApplyFilter(input),
                };
                (Modal::Closed, eff)
            } else if c == Key::Esc {
                (Modal::Closed, ModalEffect::Nothing)
            } else if c == Key::Backspace {
                let input = pop_char(&input);
                (Modal::PathInput { prompt, input, purpose, selected }, ModalEffect::Nothing)
            } else if let Key::Char(ch) = c {
                let input = with_char(&input, ch);
                (Modal::PathInput { prompt, input, purpose, selected }, ModalEffect::Nothing)
            } else {
                (Modal::PathInput { prompt, input, purpose, selected }, ModalEffect::Nothing)
            }
        },
        Modal::Export { path_input, selected } => {
            if c == Key::Left {
                let s = if selected > 0 { selected - 1 } else { 0 };
                (Modal::Export { path_input, selected: s }, ModalEffect::Nothing)
            } else if c == Key::Right {
                let s = if selected < 3 { selected + 1 } else { 3 };
                (Modal::Export { path_input, selected: s }, ModalEffect::Nothing)
            } else if c == Key::Enter {
                match export_modal_selection(selected) {
                    Some((fmt, redact)) => (Modal::Closed, ModalEffect::Export { fmt, path_input, redact }),
                    None => (Modal::Closed, ModalEffect::Nothing),
                }
            } else if c == Key::Esc {
                (Modal::Closed, ModalEffect::Nothing)
            } else if c == Key::Backspace {
                let path_input = pop_char(&path_input);
                (Modal::Export { path_input, selected }, ModalEffect::Nothing)
            } else if let Key::Char(ch) = c {
                let path_input = with_char(&path_input, ch);
                (Modal::Export { path_input, selected }, ModalEffect::Nothing)
            } else {
                (Modal::Export { path_input, selected }, ModalEffect::Nothing)
            }
        },
        Modal::ScanErrors { errors, scroll } => {
            if c == Key::Enter || c == Key::Esc {
                (Modal::Closed, ModalEffect::Nothing)
            } else if key_is(c, Key::Down, 'j') {
                (Modal::ScanErrors { errors, scroll: scroll + 1 }, ModalEffect::Nothing)
            } else if key_is(c, Key::Up, 'k') {
                let s = if scroll > 0 { scroll - 1 } else { 0 };
                (Modal::ScanErrors { errors, scroll: s }, ModalEffect::Nothing)
            } else {
                (Modal::ScanErrors { errors, scroll }, ModalEffect::Nothing)
            }
        },
        Modal::Message { title, message } => {
            if c == Key::Esc || c == Key::Enter {
                (Modal::Closed, ModalEffect::Nothing)
            } else {
                (Modal::Message { title, message }, ModalEffect::Nothing)
            }
        },
        Modal::ThemePicker { selected, original } => {
            let ts = themes();
            if key_is(c, Key::Up, 'k') {
                let s = if selected > 0 { selected - 1 } else { 0 };
                (Modal::ThemePicker { selected: s, original }, ModalEffect::SetTheme(ts[s]))
            } else if key_is(c, Key::Down, 'j') {
                let last = ts.len() - 1;
                let s = if selected + 1 < last { selected + 1 } else { last };
                (Modal::ThemePicker { selected: s, original }, ModalEffect::SetTheme(ts[s]))
            } else if c == Key::Enter {
                (Modal::Closed, ModalEffect::Nothing)
            } else if c == Key::Esc {
                (Modal::Closed, ModalEffect::SetTheme(original))
            } else {
                (Modal::ThemePicker { selected, original }, ModalEffect::Nothing)
            }
        },
    }
}

} // verus!
