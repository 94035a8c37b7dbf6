//! What the panels around the main table show: the dialog texts, the
//! table's columns for the pane width, the chart beside the table, and the
//! window of a scrolling text view.

use vstd::prelude::*;
use crate::app_state::Rect;
use crate::export::{join_lines, join_lines_exec};
use crate::modal::{Modal, ModalView};
use crate::menu::ViewMode;
use crate::text::{decimal, push_char, push_decimal, push_str, strs};
use crate::theme::{theme_list, themes};

verus! {

/// The keyboard reference shown by the help dialog.
pub const HELP_TEXT: &'static str = r#"filetree — keyboard shortcuts

Navigation
  ↑/↓ or j/k     Move selection / scroll
  ←/→ or h/l     Collapse/expand folder
  PgUp/PgDn      Scroll one page
  Home/End       Jump to first/last row
  Enter          Toggle expand/collapse (or scan volume)
  Tab            Next view tab
  Shift+Tab      Previous view tab
  g / o          Go to / open scan path

Actions
  r              Refresh/rescan selected folder
  R              Rescan entire tree
  /              Filter/search by name (modal)
  Esc            Clear filter / close menu
  s              Cycle sort column
  S              Toggle sort direction
  d              Delete selected (with confirmation)
  f              Reveal in Finder
  e              Export report
  v              Toggle follow symlinks
  H              Toggle show hidden files
  t / T          Open color theme picker
  c              Cancel active scan

Views
  1              Tree view
  2              Top-N largest files
  3              Extension breakdown
  4              Drive/volume list

Mouse
  Click menu     Open a dropdown (File/View/Sort/Actions/Help)
  Click toolbar  Run the button's action
  Click row      Select; click again to expand/collapse
  Wheel          Scroll the list

Other
  ?              This help screen
  q              Quit"#;

/// The colour role of a dialog's frame.
#[derive(Debug, Clone, Copy, PartialEq, Eq, Structural)]
pub enum FrameRole {
    Plain,
    Accent,
    Danger,
    Warning,
}

/// What an open dialog shows: its title, its text and the colour of its
/// frame.
#[derive(Debug, Clone)]
pub struct DialogContent {
    pub title: String,
    pub body: String,
    pub role: FrameRole,
}

/// The buttons of a yes/no dialog, the chosen one in brackets.
pub open spec fn yes_no(selected: usize) -> Seq<char> {
    if selected == 0 { "[Yes]  No"@ } else { " Yes  [No]"@ }
}

/// The buttons of a typed confirmation.
pub open spec fn confirm_cancel(selected: usize) -> Seq<char> {
    if selected == 0 { "[Confirm]  Cancel"@ } else { " Confirm  [Cancel]"@ }
}

/// One export choice, bracketed when chosen.
pub open spec fn export_choice(name: Seq<char>, chosen: bool) -> Seq<char> {
    if chosen { "["@ + name + "]"@ } else { " "@ + name + " "@ }
}

/// The export choices on one line.
pub open spec fn export_choices(selected: usize) -> Seq<char> {
    export_choice("Text (.txt)"@, selected == 0) + "  "@ + export_choice("CSV (.csv)"@, selected == 1) + "  "@
        + export_choice("Redacted CSV"@, selected == 2) + "  "@ + export_choice("Cancel"@, selected == 3)
}

/// The theme picker's list, the chosen theme marked.
pub open spec fn theme_lines(selected: usize) -> Seq<Seq<char>> {
    Seq::new(theme_list().len(), |i: int| if i == selected {
        "> "@ + theme_list()[i].name@ + "  (preview)"@
    } else {
        "  "@ + theme_list()[i].name@
    })
}

/// The errors shown from position `scroll` on: at most twenty.
pub open spec fn error_window(errors: Seq<Seq<char>>, scroll: u16) -> Seq<Seq<char>> {
    let rest = if scroll < errors.len() { errors.skip(scroll as int) } else { Seq::empty() };
    if rest.len() > 20 { rest.take(20) } else { rest }
}

/// What each dialog shows (title, text, frame); nothing when none is open.
pub open spec fn dialog_spec(m: ModalView) -> Option<(Seq<char>, Seq<char>, FrameRole)> {
    match m {
        ModalView::Closed => None,
        ModalView::Help => Some(("Help (Esc to close)"@, HELP_TEXT@, FrameRole::Accent)),
        ModalView::Confirm { title, message, selected } =>
            Some((title, message + "\n\n"@ + yes_no(selected), FrameRole::Danger)),
        ModalView::TypedConfirm { message, confirm_text, input, selected } => Some((
            "Confirm delete"@,
            message + "\n\nType ["@ + confirm_text + "] to confirm:\n>"@ + input + "\n\n"@ + confirm_cancel(selected),
            FrameRole::Danger,
        )),
        ModalView::PathInput { prompt, input, .. } =>
            Some(("Input"@, prompt + "\n\n>"@ + input + "\n\nEnter OK  Esc Cancel"@, FrameRole::Accent)),
        ModalView::Export { path_input, selected } => Some((
            "Export"@,
            "Export report to file:\n\n>"@ + path_input + "\n\n"@ + export_choices(selected),
            FrameRole::Accent,
        )),
        ModalView::ScanErrors { errors, scroll } => Some((
            "Scan errors"@,
            "Scan completed with "@ + decimal(errors.len()) + " error(s)\n\n"@ + join_lines(error_window(errors, scroll)),
            FrameRole::Warning,
        )),
        ModalView::Message { title, message } => Some((title, message, FrameRole::Plain)),
        ModalView::ThemePicker { selected, .. } => Some((
            "Color theme"@,
            join_lines(theme_lines(selected)) + "\n\n↑/↓ preview  Enter apply  Esc cancel"@,
            FrameRole::Accent,
        )),
    }
}

fn export_choices_exec(selected: usize) -> (r: String)
    ensures
        r@ == export_choices(selected),
{
    let names = ["Text (.txt)", "CSV (.csv)", "Redacted CSV", "Cancel"];
    let mut s = String::new();
    let mut i: usize = 0;
    while i < 4
        invariant
            i <= 4,
            names@ == seq!["Text (.txt)", "CSV (.csv)", "Redacted CSV", "Cancel"],
            s@ == (if i == 0 { Seq::empty() }
                else if i == 1 { export_choice("Text (.txt)"@, selected == 0) }
                else if i == 2 { export_choice("Text (.txt)"@, selected == 0) + "  "@ + export_choice("CSV (.csv)"@, selected == 1) }
                else if i == 3 { export_choice("Text (.txt)"@, selected == 0) + "  "@ + export_choice("CSV (.csv)"@, selected == 1) + "  "@
                    + export_choice("Redacted CSV"@, selected == 2) }
                else { export_choices(selected) }),
        decreases 4 - i,
    {
        if i > 0 {
            push_str(&mut s, "  ");
        }
        if i == selected {
            push_str(&mut s, "[");
            push_str(&mut s, names[i]);
            push_str(&mut s, "]");
        } else {
            push_str(&mut s, " ");
            push_str(&mut s, names[i]);
            push_str(&mut s, " ");
        }
        i = i + 1;
    }
    s
}

fn theme_lines_exec(selected: usize) -> (r: Vec<String>)
    ensures
        strs(r@) == theme_lines(selected),
{
    let ts = themes();
    let mut out: Vec<String> = Vec::new();
    for i in 0..ts.len()
        invariant
            ts@ == theme_list(),
            strs(out@) == theme_lines(selected).take(i as int),
    {
        let mut l = String::new();
        if i == selected {
            push_str(&mut l, "> ");
            push_str(&mut l, ts[i].name);
            push_str(&mut l, "  (preview)");
        } else {
            push_str(&mut l, "  ");
            push_str(&mut l, ts[i].name);
        }
        let ghost before = strs(out@);
        out.push(l);
        assert(strs(out@) =~= before.push(theme_lines(selected)[i as int]));
        assert(theme_lines(selected).take(i + 1) =~= theme_lines(selected).take(i as int).push(theme_lines(selected)[i as int]));
    }
    assert(theme_lines(selected).take(ts.len() as int) =~= theme_lines(selected));
    out
}

fn error_window_exec(errors: &Vec<String>, scroll: u16) -> (r: Vec<String>)
    ensures
        strs(r@) == error_window(strs(errors@), scroll),
{
    let mut out: Vec<String> = Vec::new();
    let start = scroll as usize;
    let ghost all = strs(errors@);
    let ghost rest = if scroll < all.len() { all.skip(scroll as int) } else { Seq::<Seq<char>>::empty() };
    let ghost want = error_window(all, scroll);
    if start < errors.len() {
        let end = if errors.len() - start > 20 { start + 20 } else { errors.len() };
        for i in start..end
            invariant
                start < errors@.len(),
                end <= errors@.len(),
                end - start == want.len(),
                all == strs(errors@),
                rest == all.skip(start as int),
                want == (if rest.len() > 20 { rest.take(20) } else { rest }),
                strs(out@) == want.take(i - start),
        {
            let ghost before = strs(out@);
            out.push(errors[i].clone());
            assert(want[i - start] == all[i as int]);
            assert(strs(out@) =~= before.push(want[i - start]));
            assert(want.take(i + 1 - start) =~= want.take(i - start).push(want[i - start]));
        }
        assert(want.take(end - start) =~= want);
    } else {
        assert(strs(out@) =~= want);
    }
    out
}

/// What the open dialog shows (see `dialog_spec`).
pub fn dialog_content(m: &Modal) -> (r: Option<DialogContent>)
    ensures
        match dialog_spec(m.view()) {
            Some((t, b, role)) => r matches Some(c) && c.title@ == t && c.body@ == b && c.role == role,
            None => r is None,
        },
{
    match m {
        Modal::Closed => None,
        Modal::Help => Some(DialogContent { title: "Help (Esc to close)".to_owned(), body: HELP_TEXT.to_owned(), role: FrameRole::Accent }),
        Modal::Confirm { title, message, selected } => {
            let mut b = message.clone();
            push_str(&mut b, "\n\n");
            push_str(&mut b, if *selected == 0 { "[Yes]  No" } else { " Yes  [No]" });
            Some(DialogContent { title: title.clone(), body: b, role: FrameRole::Danger })
        },
        Modal::TypedConfirm { message, confirm_text, input, selected } => {
            let mut b = message.clone();
            push_str(&mut b, "\n\nType [");
            push_str(&mut b, confirm_text.as_str());
            push_str(&mut b, "] to confirm:\n>");
            push_str(&mut b, input.as_str());
            push_str(&mut b, "\n\n");
            push_str(&mut b, if *selected == 0 { "[Confirm]  Cancel" } else { " Confirm  [Cancel]" });
            Some(DialogContent { title: "Confirm delete".to_owned(), body: b, role: FrameRole::Danger })
        },
        Modal::PathInput { prompt, input, .. } => {
            let mut b = prompt.clone();
            push_str(&mut b, "\n\n>");
            push_str(&mut b, input.as_str());
            push_str(&mut b, "\n\nEnter OK  Esc Cancel");
            Some(DialogContent { title: "Input".to_owned(), body: b, role: FrameRole::Accent })
        },
        Modal::Export { path_input, selected } => {
            let mut b = "Export report to file:\n\n>".to_owned();
            push_str(&mut b, path_input.as_str());
            push_str(&mut b, "\n\n");
            let c = export_choices_exec(*selected);
            push_str(&mut b, c.as_str());
            Some(DialogContent { title: "Export".to_owned(), body: b, role: FrameRole::Accent })
        },
        Modal::ScanErrors { errors, scroll } => {
            let mut b = "Scan completed with ".to_owned();
            push_decimal(&mut b, errors.len() as u64);
            push_str(&mut b, " error(s)\n\n");
            let w = error_window_exec(errors, *scroll);
            let j = join_lines_exec(&w);
            push_str(&mut b, j.as_str());
            Some(DialogContent { title: "Scan errors".to_owned(), body: b, role: FrameRole::Warning })
        },
        Modal::Message { title, message } => {
            Some(DialogContent { title: title.clone(), body: message.clone(), role: FrameRole::Plain })
        },
        Modal::ThemePicker { selected, .. } => {
            let ls = theme_lines_exec(*selected);
            let mut b = join_lines_exec(&ls);
            push_str(&mut b, "\n\n↑/↓ preview  Enter apply  Esc cancel");
            Some(DialogContent { title: "Color theme".to_owned(), body: b, role: FrameRole::Accent })
        },
    }
}

} // verus!

verus! {

/// The optional columns of the tree table, in the order they are admitted.
#[derive(Debug, Clone, Copy, PartialEq, Eq, Structural)]
pub enum Column {
    Size,
    PctParent,
    Bar,
    Files,
    Folders,
    PctDisk,
    Alloc,
    Modified,
    Ext,
    Owner,
}

/// The optional columns with their headers and widths.
pub open spec fn optional_columns() -> Seq<(Column, &'static str, u16)> {
    seq![
        (Column::Size, "Size", 10u16),
        (Column::PctParent, "%Par", 7u16),
        (Column::Bar, "Bar", 12u16),
        (Column::Files, "Files", 7u16),
        (Column::Folders, "Folders", 8u16),
        (Column::PctDisk, "%Disk", 7u16),
        (Column::Alloc, "Alloc", 10u16),
        (Column::Modified, "Modified", 16u16),
        (Column::Ext, "Ext", 6u16),
        (Column::Owner, "Owner", 12u16)
    ]
}

/// How many optional columns fit from position `i` on, with `used` cells
/// already taken: each needs its width and one cell of spacing; the first
/// that does not fit ends the row.
pub open spec fn fit_count(i: int, used: int, inner: int) -> nat
    decreases 10 - i,
{
    if i < 0 || i >= 10 || used + optional_columns()[i].2 + 1 > inner {
        0
    } else {
        1 + fit_count(i + 1, used + optional_columns()[i].2 + 1, inner)
    }
}

/// The cells kept for the names: three tenths of the width, at least 24.
pub open spec fn name_reserve(inner: u16) -> int {
    let r = (inner * 3) / 10;
    if r < 24 { 24 } else { r }
}

/// The optional columns shown in a table `inner` cells wide: those that
/// fit, in order, after the names and one cell of spacing.
pub open spec fn columns_spec(inner: u16) -> Seq<Column> {
    optional_columns().take(fit_count(0, name_reserve(inner) + 1, inner as int) as int).map_values(
        |c: (Column, &'static str, u16)| c.0,
    )
}

proof fn lemma_fit_count_bound(i: int, used: int, inner: int)
    requires
        0 <= i,
    ensures
        fit_count(i, used, inner) <= if i >= 10 { 0 } else { 10 - i },
    decreases 10 - i,
{
    if i < 10 && used + optional_columns()[i].2 + 1 <= inner {
        lemma_fit_count_bound(i + 1, used + optional_columns()[i].2 + 1, inner);
    }
}

/// The optional columns shown in a table `inner` cells wide (see
/// `columns_spec`).
pub fn table_columns(inner: u16) -> (r: Vec<Column>)
    requires
        inner as int * 3 <= u16::MAX,
    ensures
        r@ == columns_spec(inner),
{
    let cols = [
        (Column::Size, 10u16),
        (Column::PctParent, 7u16),
        (Column::Bar, 12u16),
        (Column::Files, 7u16),
        (Column::Folders, 8u16),
        (Column::PctDisk, 7u16),
        (Column::Alloc, 10u16),
        (Column::Modified, 16u16),
        (Column::Ext, 6u16),
        (Column::Owner, 12u16),
    ];
    let r0 = inner * 3 / 10;
    let reserve: u16 = if r0 < 24 { 24 } else { r0 };
    let mut used: u32 = reserve as u32 + 1;
    let mut out: Vec<Column> = Vec::new();
    let mut i: usize = 0;
    let ghost all = optional_columns();
    let ghost total = fit_count(0, name_reserve(inner) + 1, inner as int);
    proof {
        lemma_fit_count_bound(0, name_reserve(inner) + 1, inner as int);
    }
    while i < 10
        invariant
            i <= 10,
            all == optional_columns(),
            forall|k: int| 0 <= k < 10 ==> (#[trigger] cols@[k]).0 == all[k].0 && cols@[k].1 == all[k].2,
            inner as int * 3 <= u16::MAX,
            used <= 30000,
            total == i + fit_count(i as int, used as int, inner as int),
            out@ == all.take(i as int).map_values(|c: (Column, &'static str, u16)| c.0),
        ensures
            total == i,
            out@ == all.take(i as int).map_values(|c: (Column, &'static str, u16)| c.0),
        decreases 10 - i,
    {
        let (c, w) = cols[i];
        if used + w as u32 + 1 <= inner as u32 {
            used = used + w as u32 + 1;
            out.push(c);
            assert(all.take(i + 1).map_values(|c: (Column, &'static str, u16)| c.0)
                =~= all.take(i as int).map_values(|c: (Column, &'static str, u16)| c.0).push(c));
            i = i + 1;
        } else {
            assert(fit_count(i as int, used as int, inner as int) == 0);
            break;
        }
    }
    assert(out@ =~= columns_spec(inner));
    out
}

/// A column's header.
pub fn column_header(c: Column) -> (r: &'static str)
    ensures
        exists|i: int| 0 <= i < 10 && optional_columns()[i].0 == c && optional_columns()[i].1 == r,
{
    match c {
        Column::Size => {
            assert(optional_columns()[0].0 == c);
            "Size"
        },
        Column::PctParent => {
            assert(optional_columns()[1].0 == c);
            "%Par"
        },
        Column::Bar => {
            assert(optional_columns()[2].0 == c);
            "Bar"
        },
        Column::Files => {
            assert(optional_columns()[3].0 == c);
            "Files"
        },
        Column::Folders => {
            assert(optional_columns()[4].0 == c);
            "Folders"
        },
        Column::PctDisk => {
            assert(optional_columns()[5].0 == c);
            "%Disk"
        },
        Column::Alloc => {
            assert(optional_columns()[6].0 == c);
            "Alloc"
        },
        Column::Modified => {
            assert(optional_columns()[7].0 == c);
            "Modified"
        },
        Column::Ext => {
            assert(optional_columns()[8].0 == c);
            "Ext"
        },
        Column::Owner => {
            assert(optional_columns()[9].0 == c);
            "Owner"
        },
    }
}

/// A column's width in cells.
pub fn column_width(c: Column) -> (r: u16)
    ensures
        exists|i: int| 0 <= i < 10 && optional_columns()[i].0 == c && optional_columns()[i].2 == r,
{
    match c {
        Column::Size => {
            assert(optional_columns()[0].0 == c);
            10
        },
        Column::PctParent => {
            assert(optional_columns()[1].0 == c);
            7
        },
        Column::Bar => {
            assert(optional_columns()[2].0 == c);
            12
        },
        Column::Files => {
            assert(optional_columns()[3].0 == c);
            7
        },
        Column::Folders => {
            assert(optional_columns()[4].0 == c);
            8
        },
        Column::PctDisk => {
            assert(optional_columns()[5].0 == c);
            7
        },
        Column::Alloc => {
            assert(optional_columns()[6].0 == c);
            10
        },
        Column::Modified => {
            assert(optional_columns()[7].0 == c);
            16
        },
        Column::Ext => {
            assert(optional_columns()[8].0 == c);
            6
        },
        Column::Owner => {
            assert(optional_columns()[9].0 == c);
            12
        },
    }
}

/// Where the table's data rows are drawn inside its frame: one cell in
/// from each side, below the header row.
pub fn table_rows_area(area: Rect) -> (r: Rect)
    ensures
        r.x == if area.x < u16::MAX { area.x + 1 } else { area.x as int },
        r.y == if area.y as int + 2 <= u16::MAX { area.y + 2 } else { u16::MAX as int },
        r.width == if area.width >= 2 { area.width - 2 } else { 0 },
        r.height == if area.height >= 3 { area.height - 3 } else { 0 },
{
    Rect {
        x: area.x.saturating_add(1),
        y: area.y.saturating_add(2),
        width: area.width.saturating_sub(2),
        height: area.height.saturating_sub(3),
    }
}

} // verus!
