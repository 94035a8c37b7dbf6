//! The interactive state of the application and how user actions change it.
//! Work that touches the file system, the scan worker or the terminal is
//! returned as commands for the front end to carry out, in order.

use vstd::prelude::*;
use crate::menu::{Action, ViewMode};
use crate::modal::{Modal, ModalView, PathInputPurpose};
use crate::models::{ScanNode, NodeModel, SortKey};
use crate::theme::{theme_index, Theme};

verus! {

/// The views, in the order Tab cycles through them.
pub open spec fn view_cycle() -> Seq<ViewMode> {
    seq![ViewMode::Tree, ViewMode::TopFiles, ViewMode::Extensions, ViewMode::Volumes]
}

/// The position of a view in the cycle.
pub open spec fn view_index(v: ViewMode) -> int {
    match v {
        ViewMode::Tree => 0,
        ViewMode::TopFiles => 1,
        ViewMode::Extensions => 2,
        ViewMode::Volumes => 3,
    }
}

/// The view `delta` steps from `v` in the cycle, wrapping both ways.
pub open spec fn cycled_view(v: ViewMode, delta: int) -> ViewMode {
    view_cycle()[(view_index(v) + delta) % 4]
}

/// The view `delta` steps from `v` (see `cycled_view`).
pub fn cycle_view(v: ViewMode, delta: i32) -> (r: ViewMode)
    ensures
        r == cycled_view(v, delta as int),
{
    let idx: i64 = match v {
        ViewMode::Tree => 0,
        ViewMode::TopFiles => 1,
        ViewMode::Extensions => 2,
        ViewMode::Volumes => 3,
    };
    let x: i64 = idx + delta as i64;
    let m: i64 = if x >= 0 { x % 4 } else { (4 - ((-x) % 4)) % 4 };
    proof {
        let xi: int = x as int;
        if x >= 0 {
            assert(m == xi % 4);
        } else {
            let q: int = (-xi) % 4;
            assert(m == (4 - q) % 4);
            assert((4 - q) % 4 == xi % 4) by (nonlinear_arith)
                requires
                    xi < 0,
                    q == (-xi) % 4,
            ;
        }
    }
    if m == 0 {
        ViewMode::Tree
    } else if m == 1 {
        ViewMode::TopFiles
    } else if m == 2 {
        ViewMode::Extensions
    } else {
        ViewMode::Volumes
    }
}

/// Whether a view is drawn as scrolling text rather than a table.
pub open spec fn is_text_view(v: ViewMode) -> bool {
    v == ViewMode::TopFiles || v == ViewMode::Extensions
}

/// Whether a view is drawn as scrolling text (see `is_text_view`).
pub fn text_view(v: ViewMode) -> (r: bool)
    ensures
        r == is_text_view(v),
{
    match v {
        ViewMode::TopFiles => true,
        ViewMode::Extensions => true,
        _ => false,
    }
}

/// The sort key after `k` in the cycle, wrapping around.
pub open spec fn next_sort_spec(k: SortKey) -> SortKey {
    match k {
        SortKey::Name => SortKey::Size,
        SortKey::Size => SortKey::Allocated,
        SortKey::Allocated => SortKey::Date,
        SortKey::Date => SortKey::Extension,
        SortKey::Extension => SortKey::Owner,
        SortKey::Owner => SortKey::Percent,
        SortKey::Percent => SortKey::Name,
    }
}

/// The sort key after `k` in `SortKey::all`, wrapping around.
pub fn next_sort_key(k: SortKey) -> (r: SortKey)
    ensures
        r == next_sort_spec(k),
{
    match k {
        SortKey::Name => SortKey::Size,
        SortKey::Size => SortKey::Allocated,
        SortKey::Allocated => SortKey::Date,
        SortKey::Date => SortKey::Extension,
        SortKey::Extension => SortKey::Owner,
        SortKey::Owner => SortKey::Percent,
        SortKey::Percent => SortKey::Name,
    }
}

/// One page of movement: the rows visible in the current view, at least 1.
pub fn page_step(v: ViewMode, text_rows: u16, table_rows: u16) -> (r: i32)
    ensures
        r == if is_text_view(v) {
            if text_rows >= 1 { text_rows as int } else { 1 }
        } else {
            if table_rows >= 1 { table_rows as int } else { 1 }
        },
{
    if text_view(v) {
        if text_rows >= 1 { text_rows as i32 } else { 1 }
    } else {
        if table_rows >= 1 { table_rows as i32 } else { 1 }
    }
}

/// The scroll offset of a text view after moving `delta` lines: kept
/// between 0 and the last offset that still fills the viewport (the
/// viewport counted as at least one line), then stored as `u16`.
pub open spec fn scrolled_spec(scroll: u16, delta: int, lines: nat, viewport: u16) -> u16 {
    let visible: int = if viewport >= 1 { viewport as int } else { 1 };
    let max_scroll: int = if lines >= visible { lines - visible } else { 0 };
    let next: int = scroll + delta;
    let clamped: int = if next < 0 { 0 } else if next > max_scroll { max_scroll } else { next };
    clamped as u16
}

/// Scrolls a text view (see `scrolled_spec`).
pub fn scroll_text(scroll: u16, delta: i32, lines: usize, viewport: u16) -> (r: u16)
    requires
        lines <= i64::MAX,
    ensures
        r == scrolled_spec(scroll, delta as int, lines as nat, viewport),
{
    let visible: usize = if viewport >= 1 { viewport as usize } else { 1 };
    let max_scroll: i64 = if lines >= visible { (lines - visible) as i64 } else { 0 };
    let next: i64 = scroll as i64 + delta as i64;
    let clamped: i64 = if next < 0 { 0 } else if next > max_scroll { max_scroll } else { next };
    clamped as u16
}

/// The selected table row after moving `delta` rows: unchanged when the
/// table is empty, else the current row (the first when none) moved and
/// kept within the table.
pub open spec fn moved_spec(selected: Option<usize>, delta: int, rows: nat) -> Option<usize> {
    if rows == 0 {
        selected
    } else {
        let cur: int = match selected { Some(s) => s as int, None => 0 };
        let next: int = cur + delta;
        Some((if next < 0 { 0 } else if next > rows - 1 { rows - 1 } else { next }) as usize)
    }
}

/// Moves the table selection (see `moved_spec`).
pub fn move_selection(selected: Option<usize>, delta: i32, rows: usize) -> (r: Option<usize>)
    requires
        rows <= i64::MAX,
    ensures
        r == moved_spec(selected, delta as int, rows as nat),
{
    if rows == 0 {
        return selected;
    }
    let cur: i128 = match selected { Some(s) => s as i128, None => 0 };
    let next: i128 = cur + delta as i128;
    let last: i128 = rows as i128 - 1;
    let c: i128 = if next < 0 { 0 } else if next > last { last } else { next };
    Some(c as usize)
}

/// The row Home or End selects: the first or the last; none when the table
/// is empty.
pub fn edge_row(to_start: bool, rows: usize) -> (r: Option<usize>)
    ensures
        r == if rows == 0 { None } else if to_start { Some(0usize) } else { Some((rows - 1) as usize) },
{
    if rows == 0 {
        None
    } else if to_start {
        Some(0)
    } else {
        Some(rows - 1)
    }
}

/// The open menu after clicking menu title `idx`: closed when it was open,
/// else that menu.
pub fn toggle_menu(open: Option<usize>, idx: usize) -> (r: Option<usize>)
    ensures
        r == if open == Some(idx) { None } else { Some(idx) },
{
    match open {
        Some(i) => if i == idx { None } else { Some(idx) },
        None => Some(idx),
    }
}

/// A rectangle of terminal cells.
#[derive(Debug, Clone, Copy, PartialEq, Eq, Structural, Default)]
pub struct Rect {
    pub x: u16,
    pub y: u16,
    pub width: u16,
    pub height: u16,
}

/// Whether the cell `(x, y)` lies in `r` (its far edges saturated at
/// `u16::MAX`).
pub open spec fn contains_spec(r: Rect, x: u16, y: u16) -> bool {
    let right: int = if r.x + r.width > u16::MAX { u16::MAX as int } else { r.x + r.width };
    let bottom: int = if r.y + r.height > u16::MAX { u16::MAX as int } else { r.y + r.height };
    x >= r.x && x < right && y >= r.y && y < bottom
}

/// Whether a cell lies in a rectangle (see `contains_spec`).
pub fn rect_contains(r: Rect, x: u16, y: u16) -> (b: bool)
    ensures
        b == contains_spec(r, x, y),
{
    x >= r.x && x < r.x.saturating_add(r.width) && y >= r.y && y < r.y.saturating_add(r.height)
}

/// The first box containing the cell.
pub open spec fn first_hit<T>(boxes: Seq<(Rect, T)>, x: u16, y: u16, n: int) -> Option<T>
    decreases n,
{
    if n <= 0 {
        None
    } else {
        match first_hit(boxes, x, y, n - 1) {
            Some(t) => Some(t),
            None => if contains_spec(boxes[n - 1].0, x, y) { Some(boxes[n - 1].1) } else { None },
        }
    }
}

/// The menu index of the first box containing the cell.
pub fn hit_index(boxes: &Vec<(Rect, usize)>, x: u16, y: u16) -> (r: Option<usize>)
    ensures
        r == first_hit(boxes@, x, y, boxes@.len() as int),
{
    for i in 0..boxes.len()
        invariant
            first_hit(boxes@, x, y, i as int) is None,
    {
        if rect_contains(boxes[i].0, x, y) {
            proof {
                lemma_first_hit_rest(boxes@, x, y, i as int + 1);
            }
            return Some(boxes[i].1);
        }
    }
    None
}

/// The action of the first box containing the cell.
pub fn hit_action(boxes: &Vec<(Rect, Action)>, x: u16, y: u16) -> (r: Option<Action>)
    ensures
        r == first_hit(boxes@, x, y, boxes@.len() as int),
{
    for i in 0..boxes.len()
        invariant
            first_hit(boxes@, x, y, i as int) is None,
    {
        if rect_contains(boxes[i].0, x, y) {
            proof {
                lemma_first_hit_rest(boxes@, x, y, i as int + 1);
            }
            return Some(boxes[i].1);
        }
    }
    None
}

/// Once a box is hit, boxes further on do not change the answer.
proof fn lemma_first_hit_rest<T>(boxes: Seq<(Rect, T)>, x: u16, y: u16, k: int)
    requires
        0 < k <= boxes.len(),
        first_hit(boxes, x, y, k) is Some,
    ensures
        first_hit(boxes, x, y, boxes.len() as int) == first_hit(boxes, x, y, k),
    decreases boxes.len() - k,
{
    if k < boxes.len() {
        assert(first_hit(boxes, x, y, k + 1) == first_hit(boxes, x, y, k));
        lemma_first_hit_rest(boxes, x, y, k + 1);
    }
}

/// The table row under a click at terminal row `row`: rows are drawn from
/// the top of `area`, starting at row `offset` of the table; none past the
/// last row.
pub fn clicked_row(area: Rect, offset: usize, row: u16, rows: usize) -> (r: Option<usize>)
    ensures
        ({
            let rel: int = if row >= area.y { row - area.y } else { 0 };
            r == if offset + rel < rows { Some((offset + rel) as usize) } else { None }
        }),
{
    let rel: usize = if row >= area.y { (row - area.y) as usize } else { 0 };
    if offset < rows && rel < rows - offset {
        Some(offset + rel)
    } else {
        None
    }
}

/// Something the front end must do after a state change.
#[derive(Debug, Clone)]
pub enum Command {
    /// Rebuild the rows of the current view.
    Rebuild,
    /// Rewrite the status line from the tree and settings.
    UpdateStatus,
    /// Redraw on the next tick.
    MarkDirty,
    /// Scan this path from scratch.
    StartScan(String),
    /// Rescan this directory within the current tree.
    StartRescan(String),
    /// Show a notification; `true` for an error.
    Notify(String, bool),
    /// Tell the running scan worker to stop.
    CancelActiveScan,
    /// Forget the paths matched by the filter.
    ClearFilterMatches,
    Collapse,
    Expand,
    ToggleExpandOrScan,
    /// Move the selection or the text by this many rows.
    Scroll(i32),
    /// Move by one page, down when `true`.
    Page(bool),
    /// Go to the first row (`true`) or the last.
    Jump(bool),
    RevealFinder,
    Delete,
}

/// The value of a command.
pub enum CommandView {
    Rebuild,
    UpdateStatus,
    MarkDirty,
    StartScan(Seq<char>),
    StartRescan(Seq<char>),
    Notify(Seq<char>, bool),
    CancelActiveScan,
    ClearFilterMatches,
    Collapse,
    Expand,
    ToggleExpandOrScan,
    Scroll(i32),
    Page(bool),
    Jump(bool),
    RevealFinder,
    Delete,
}

impl Command {
    pub open spec fn view(&self) -> CommandView {
        match *self {
            Command::Rebuild => CommandView::Rebuild,
            Command::UpdateStatus => CommandView::UpdateStatus,
            Command::MarkDirty => CommandView::MarkDirty,
            Command::StartScan(p) => CommandView::StartScan(p@),
            Command::StartRescan(p) => CommandView::StartRescan(p@),
            Command::Notify(m, e) => CommandView::Notify(m@, e),
            Command::CancelActiveScan => CommandView::CancelActiveScan,
            Command::ClearFilterMatches => CommandView::ClearFilterMatches,
            Command::Collapse => CommandView::Collapse,
            Command::Expand => CommandView::Expand,
            Command::ToggleExpandOrScan => CommandView::ToggleExpandOrScan,
            Command::Scroll(d) => CommandView::Scroll(d),
            Command::Page(d) => CommandView::Page(d),
            Command::Jump(s) => CommandView::Jump(s),
            Command::RevealFinder => CommandView::RevealFinder,
            Command::Delete => CommandView::Delete,
        }
    }
}

/// The values of a list of commands.
pub open spec fn commands_view(cs: Seq<Command>) -> Seq<CommandView> {
    cs.map_values(|c: Command| c.view())
}

/// The settings and screen state that user actions change.
pub struct UiState {
    pub view_mode: ViewMode,
    pub sort_key: SortKey,
    pub sort_reverse: bool,
    pub filter_text: String,
    pub show_filter_bar: bool,
    pub follow_symlinks: bool,
    pub show_hidden: bool,
    pub scan_in_progress: bool,
    pub cancel_requested: bool,
    pub should_quit: bool,
    pub status_message: String,
    pub modal: Modal,
    /// Scroll offset of the text views.
    pub alt_scroll: u16,
    pub theme: Theme,
}

/// The value of the state.
pub struct UiView {
    pub view_mode: ViewMode,
    pub sort_key: SortKey,
    pub sort_reverse: bool,
    pub filter_text: Seq<char>,
    pub show_filter_bar: bool,
    pub follow_symlinks: bool,
    pub show_hidden: bool,
    pub scan_in_progress: bool,
    pub cancel_requested: bool,
    pub should_quit: bool,
    pub status_message: Seq<char>,
    pub modal: ModalView,
    pub alt_scroll: u16,
    pub theme: Theme,
}

impl UiState {
    pub open spec fn view(&self) -> UiView {
        UiView {
            view_mode: self.view_mode,
            sort_key: self.sort_key,
            sort_reverse: self.sort_reverse,
            filter_text: self.filter_text@,
            show_filter_bar: self.show_filter_bar,
            follow_symlinks: self.follow_symlinks,
            show_hidden: self.show_hidden,
            scan_in_progress: self.scan_in_progress,
            cancel_requested: self.cancel_requested,
            should_quit: self.should_quit,
            status_message: self.status_message@,
            modal: self.modal.view(),
            alt_scroll: self.alt_scroll,
            theme: self.theme,
        }
    }

    /// The state at start-up: tree view sorted by size, largest first, no
    /// filter, nothing scanning, no dialog, the given theme.
    pub fn new(theme: Theme) -> (r: UiState)
        ensures
            r.view() == (UiView {
                view_mode: ViewMode::Tree,
                sort_key: SortKey::Size,
                sort_reverse: true,
                filter_text: Seq::empty(),
                show_filter_bar: false,
                follow_symlinks: false,
                show_hidden: false,
                scan_in_progress: false,
                cancel_requested: false,
                should_quit: false,
                status_message: "Ready. Checking Full Disk Access…"@,
                modal: ModalView::Closed,
                alt_scroll: 0,
                theme,
            }),
    {
        UiState {
            view_mode: ViewMode::Tree,
            sort_key: SortKey::Size,
            sort_reverse: true,
            filter_text: String::new(),
            show_filter_bar: false,
            follow_symlinks: false,
            show_hidden: false,
            scan_in_progress: false,
            cancel_requested: false,
            should_quit: false,
            status_message: "Ready. Checking Full Disk Access…".to_owned(),
            modal: Modal::Closed,
            alt_scroll: 0,
            theme,
        }
    }
}

/// The state after switching to view `v`: text views scroll back to the
/// top.
pub open spec fn with_view(s: UiView, v: ViewMode) -> UiView {
    UiView { view_mode: v, alt_scroll: if is_text_view(v) { 0 } else { s.alt_scroll }, ..s }
}

/// A scan of the tree's root, when there is a tree.
pub open spec fn rescan_root(root: Option<NodeModel>) -> Seq<CommandView> {
    match root {
        Some(r) => seq![CommandView::StartScan(r.path)],
        None => Seq::empty(),
    }
}

/// What an action does: the next state and the commands to carry out.
/// `root` is the scanned tree, if any; `selected` the node selected in the
/// tree view, if any; `start` the last scan path; `home` the home
/// directory.
pub open spec fn dispatch_spec(
    s: UiView,
    a: Action,
    root: Option<NodeModel>,
    selected: Option<NodeModel>,
    start: Seq<char>,
    home: Seq<char>,
) -> (UiView, Seq<CommandView>) {
    match a {
        Action::Quit => (UiView { should_quit: true, ..s }, Seq::empty()),
        Action::Help => (UiView { modal: ModalView::Help, ..s }, Seq::empty()),
        Action::OpenFilter => (UiView {
            modal: ModalView::PathInput {
                prompt: "Filter by name (substring):"@,
                input: s.filter_text,
                purpose: PathInputPurpose::Filter,
                selected: 0,
            },
            ..s
        }, Seq::empty()),
        Action::ClearFilter => (
            UiView { filter_text: Seq::empty(), show_filter_bar: false, ..s },
            seq![CommandView::ClearFilterMatches, CommandView::Rebuild],
        ),
        Action::CycleSort => (
            UiView { sort_key: next_sort_spec(s.sort_key), ..s },
            seq![CommandView::Rebuild, CommandView::UpdateStatus],
        ),
        Action::ToggleSortDir => (
            UiView { sort_reverse: !s.sort_reverse, ..s },
            seq![CommandView::Rebuild, CommandView::UpdateStatus],
        ),
        Action::SetSort(k) => (UiView { sort_key: k, ..s }, seq![CommandView::Rebuild, CommandView::UpdateStatus]),
        Action::RescanTree => (s, rescan_root(root)),
        Action::RescanSelected => {
            if s.scan_in_progress {
                (s, seq![CommandView::Notify("Scan in progress — press c to cancel first"@, false)])
            } else {
                match selected {
                    Some(n) => (s, if n.is_dir { seq![CommandView::StartRescan(n.path)] } else { Seq::empty() }),
                    None => (s, rescan_root(root)),
                }
            }
        },
        Action::CancelScan => {
            if s.scan_in_progress {
                (
                    UiView { cancel_requested: true, status_message: "Cancelling scan…"@, ..s },
                    seq![CommandView::CancelActiveScan, CommandView::MarkDirty],
                )
            } else {
                (s, Seq::empty())
            }
        },
        Action::GotoPath => (UiView {
            modal: ModalView::PathInput { prompt: "Scan path:"@, input: start, purpose: PathInputPurpose::Goto, selected: 0 },
            ..s
        }, Seq::empty()),
        Action::ToggleSymlinks => (
            UiView { follow_symlinks: !s.follow_symlinks, ..s },
            seq![CommandView::UpdateStatus] + rescan_root(root),
        ),
        Action::ToggleHidden => (
            UiView { show_hidden: !s.show_hidden, ..s },
            seq![CommandView::UpdateStatus] + rescan_root(root),
        ),
        Action::ThemePicker => (UiView {
            modal: ModalView::ThemePicker { selected: theme_index(s.theme) as usize, original: s.theme },
            ..s
        }, Seq::empty()),
        Action::NextView => (with_view(s, cycled_view(s.view_mode, 1)), seq![CommandView::Rebuild]),
        Action::PrevView => (with_view(s, cycled_view(s.view_mode, -1)), seq![CommandView::Rebuild]),
        Action::SetView(v) => (with_view(s, v), seq![CommandView::Rebuild]),
        Action::Collapse => (s, seq![CommandView::Collapse]),
        Action::Expand => (s, seq![CommandView::Expand]),
        Action::ToggleExpandOrScan => (s, seq![CommandView::ToggleExpandOrScan]),
        Action::MoveDown => (s, seq![CommandView::Scroll(1)]),
        Action::MoveUp => (s, seq![CommandView::Scroll(-1i32)]),
        Action::PageDown => (s, seq![CommandView::Page(true)]),
        Action::PageUp => (s, seq![CommandView::Page(false)]),
        Action::Home => (s, seq![CommandView::Jump(true)]),
        Action::End => (s, seq![CommandView::Jump(false)]),
        Action::RevealFinder => (s, seq![CommandView::RevealFinder]),
        Action::Delete => (s, seq![CommandView::Delete]),
        Action::Export => {
            match root {
                Some(r) => (
                    UiView { modal: ModalView::Export { path_input: home + "/filetree-report.txt"@, selected: 0 }, ..s },
                    if crate::export::has_sensitive_spec(r) {
                        seq![CommandView::Notify(crate::export::warning_text(), false)]
                    } else {
                        Seq::empty()
                    },
                ),
                None => (s, seq![CommandView::Notify("Nothing to export"@, false)]),
            }
        },
    }
}

fn rescan_root_cmds(root: Option<&ScanNode>) -> (r: Vec<Command>)
    ensures
        commands_view(r@) == rescan_root(match root { Some(n) => Some(n.model()), None => None }),
{
    let mut v: Vec<Command> = Vec::new();
    match root {
        Some(n) => v.push(Command::StartScan(n.path.clone())),
        None => {},
    }
    assert(commands_view(v@) =~= rescan_root(match root { Some(n) => Some(n.model()), None => None }));
    v
}

fn one(c: Command) -> (r: Vec<Command>)
    ensures
        commands_view(r@) == seq![c.view()],
{
    let v = vec![c];
    assert(commands_view(v@) =~= seq![c.view()]);
    v
}

fn two(a: Command, b: Command) -> (r: Vec<Command>)
    ensures
        commands_view(r@) == seq![a.view(), b.view()],
{
    let v = vec![a, b];
    assert(commands_view(v@) =~= seq![a.view(), b.view()]);
    v
}

fn none() -> (r: Vec<Command>)
    ensures
        commands_view(r@) == Seq::<CommandView>::empty(),
{
    let v: Vec<Command> = Vec::new();
    assert(commands_view(v@) =~= Seq::<CommandView>::empty());
    v
}

impl UiState {
    /// Carries out an action (see `dispatch_spec`) and returns the commands
    /// for the front end, in order.
    #[verifier::spinoff_prover]
    #[verifier::rlimit(60)]
    pub fn dispatch(
        &mut self,
        action: Action,
        root: Option<&ScanNode>,
        selected: Option<&ScanNode>,
        start_path: &str,
        home: &str,
    ) -> (r: Vec<Command>)
        ensures
            (final(self).view(), commands_view(r@)) == dispatch_spec(
                old(self).view(),
                action,
                match root { Some(n) => Some(n.model()), None => None },
                match selected { Some(n) => Some(n.model()), None => None },
                start_path@,
                home@,
            ),
    {
        match action {
            Action::Quit => {
                self.should_quit = true;
                none()
            },
            Action::Help => {
                self.modal = Modal::Help;
                none()
            },
            Action::OpenFilter => {
                self.modal = Modal::PathInput {
                    prompt: "Filter by name (substring):".to_owned(),
                    input: self.filter_text.clone(),
                    purpose: PathInputPurpose::Filter,
                    selected: 0,
                };
                none()
            },
            Action::ClearFilter => {
                self.filter_text = String::new();
                self.show_filter_bar = false;
                two(Command::ClearFilterMatches, Command::Rebuild)
            },
            Action::CycleSort => {
                self.sort_key = next_sort_key(self.sort_key);
                two(Command::Rebuild, Command::UpdateStatus)
            },
            Action::ToggleSortDir => {
                self.sort_reverse = !self.sort_reverse;
                two(Command::Rebuild, Command::UpdateStatus)
            },
            Action::SetSort(k) => {
                self.sort_key = k;
                two(Command::Rebuild, Command::UpdateStatus)
            },
            Action::RescanTree => rescan_root_cmds(root),
            Action::RescanSelected => {
                if self.scan_in_progress {
                    one(Command::Notify("Scan in progress — press c to cancel first".to_owned(), false))
                } else {
                    match selected {
                        Some(n) => if n.is_dir { one(Command::StartRescan(n.path.clone())) } else { none() },
                        None => rescan_root_cmds(root),
                    }
                }
            },
            Action::CancelScan => {
                if self.scan_in_progress {
                    self.cancel_requested = true;
                    self.status_message = "Cancelling scan…".to_owned();
                    two(Command::CancelActiveScan, Command::MarkDirty)
                } else {
                    none()
                }
            },
            Action::GotoPath => {
                self.modal = Modal::PathInput {
                    prompt: "Scan path:".to_owned(),
                    input: start_path.to_owned(),
                    purpose: PathInputPurpose::Goto,
                    selected: 0,
                };
                none()
            },
            Action::ToggleSymlinks => {
                self.follow_symlinks = !self.follow_symlinks;
                let mut v = one(Command::UpdateStatus);
                let mut w = rescan_root_cmds(root);
                v.append(&mut w);
                assert(commands_view(v@) =~= seq![CommandView::UpdateStatus] + rescan_root(match root { Some(n) => Some(n.model()), None => None }));
                v
            },
            Action::ToggleHidden => {
                self.show_hidden = !self.show_hidden;
                let mut v = one(Command::UpdateStatus);
                let mut w = rescan_root_cmds(root);
                v.append(&mut w);
                assert(commands_view(v@) =~= seq![CommandView::UpdateStatus] + rescan_root(match root { Some(n) => Some(n.model()), None => None }));
                v
            },
            Action::ThemePicker => {
                let selected = self.theme.position();
                self.modal = Modal::ThemePicker { selected, original: self.theme };
                none()
            },
            Action::NextView => {
                self.set_view(cycle_view(self.view_mode, 1));
                one(Command::Rebuild)
            },
            Action::PrevView => {
                self.set_view(cycle_view(self.view_mode, -1));
                one(Command::Rebuild)
            },
            Action::SetView(v) => {
                self.set_view(v);
                one(Command::Rebuild)
            },
            Action::Collapse => one(Command::Collapse),
            Action::Expand => one(Command::Expand),
            Action::ToggleExpandOrScan => one(Command::ToggleExpandOrScan),
            Action::MoveDown => one(Command::Scroll(1)),
            Action::MoveUp => one(Command::Scroll(-1)),
            Action::PageDown => one(Command::Page(true)),
            Action::PageUp => one(Command::Page(false)),
            Action::Home => one(Command::Jump(true)),
            Action::End => one(Command::Jump(false)),
            Action::RevealFinder => one(Command::RevealFinder),
            Action::Delete => one(Command::Delete),
            Action::Export => {
                match root {
                    Some(r) => {
                        let warn = crate::export::export_warning(r);
                        let mut p = home.to_owned();
                        crate::text::push_str(&mut p, "/filetree-report.txt");
                        self.modal = Modal::Export { path_input: p, selected: 0 };
                        match warn {
                            Some(w) => one(Command::Notify(w, false)),
                            None => none(),
                        }
                    },
                    None => one(Command::Notify("Nothing to export".to_owned(), false)),
                }
            },
        }
    }

    /// Switches to view `v` (see `with_view`).
    pub fn set_view(&mut self, v: ViewMode)
        ensures
            final(self).view() == with_view(old(self).view(), v),
    {
        self.view_mode = v;
        if text_view(v) {
            self.alt_scroll = 0;
        }
    }
}

} // verus!

verus! {

/// Paths at least this large need their name typed to confirm a delete.
pub const LARGE_DELETE_BYTES: u64 = 1_000_000_000;

/// An action waiting for the user's confirmation.
#[derive(Debug, Clone)]
pub enum PendingAction {
    Delete { path: String, is_dir: bool, size: u64 },
    Export { fmt: String, path: String, redact: bool, overwrite: bool },
    RescanSubtree { path: String },
}

/// The confirmation text of a delete: the path and its size.
pub open spec fn delete_message(path: Seq<char>, size: u64) -> Seq<char> {
    "Permanently delete?\n\n"@ + path + "\n\nSize: "@ + crate::scanner::format_bytes_spec(size as i64 as int)
}

/// The hint under a typed delete confirmation.
pub open spec fn typed_hint(is_dir: bool) -> Seq<char> {
    if is_dir {
        "\n\nLarge directory — type the folder name to confirm."@
    } else {
        "\n\nLarge file — type the file name to confirm."@
    }
}

/// The dialog that confirms deleting `m`: a typed confirmation with the
/// file or folder name (or `delete` when the path has none) for any path
/// of `LARGE_DELETE_BYTES` or more, else a yes/no dialog.
pub open spec fn delete_dialog(m: NodeModel) -> ModalView {
    if m.size >= LARGE_DELETE_BYTES {
        ModalView::TypedConfirm {
            message: delete_message(m.path, m.size) + typed_hint(m.is_dir),
            confirm_text: match crate::paths::file_name_of(m.path) { Some(n) => n, None => "delete"@ },
            input: Seq::empty(),
            selected: 0,
        }
    } else {
        ModalView::Confirm { title: "Delete Item"@, message: delete_message(m.path, m.size), selected: 0 }
    }
}

/// Asks to delete the selected node `node`: refused while a scan runs or
/// when the guard blocks it (`canonical` and `scan` are the node's and the scan
/// root's canonical paths), else the pending delete and its dialog.
pub fn plan_delete(
    node: &ScanNode,
    canonical: &str,
    scan: &str,
    home: &str,
    denied: &Vec<crate::paths::DeniedPrefix>,
    scan_in_progress: bool,
) -> (r: Result<(PendingAction, Modal), String>)
    ensures
        match r {
            Err(msg) => if scan_in_progress {
                msg@ == "Cannot delete while scan is in progress"@
            } else {
                crate::paths::delete_block_reason(canonical@, scan@, home@, denied@) == Some(msg@)
            },
            Ok((p, d)) => {
                &&& !scan_in_progress
                &&& crate::paths::delete_block_reason(canonical@, scan@, home@, denied@) is None
                &&& p matches PendingAction::Delete { path, is_dir, size }
                    && path@ == node.path@ && is_dir == node.is_dir && size == node.size
                &&& d.view() == delete_dialog(node.model())
            },
        },
{
    if scan_in_progress {
        return Err("Cannot delete while scan is in progress".to_owned());
    }
    let (protected, reason) = crate::paths::is_delete_protected(canonical, scan, home, denied);
    if protected {
        return Err(reason);
    }
    let mut message = "Permanently delete?\n\n".to_owned();
    crate::text::push_str(&mut message, node.path.as_str());
    crate::text::push_str(&mut message, "\n\nSize: ");
    let fb = crate::scanner::format_bytes(node.size as i64);
    crate::text::push_str(&mut message, fb.as_str());
    let pending = PendingAction::Delete { path: node.path.clone(), is_dir: node.is_dir, size: node.size };
    if node.size >= LARGE_DELETE_BYTES {
        let confirm_text = match crate::paths::file_name(node.path.as_str()) {
            Some(n) => crate::text::string_of(&n),
            None => "delete".to_owned(),
        };
        if node.is_dir {
            crate::text::push_str(&mut message, "\n\nLarge directory — type the folder name to confirm.");
        } else {
            crate::text::push_str(&mut message, "\n\nLarge file — type the file name to confirm.");
        }
        Ok((pending, Modal::TypedConfirm { message, confirm_text, input: String::new(), selected: 0 }))
    } else {
        Ok((pending, Modal::Confirm { title: "Delete Item".to_owned(), message, selected: 0 }))
    }
}

/// The commands after a successful delete of `target`: the notice, then a
/// rescan of its parent when that directory is expanded, else of the whole
/// tree (when there is one), then a rebuild.
pub open spec fn after_delete_spec(target: Seq<char>, expanded: Seq<Seq<char>>, root: Option<Seq<char>>) -> Seq<CommandView> {
    let rescan_all = match root { Some(p) => seq![CommandView::StartScan(p)], None => Seq::empty() };
    seq![CommandView::Notify("Deleted: "@ + target, false)]
        + (match crate::paths::parent_spec(target) {
            Some(parent) => if crate::tree_view::path_in(expanded, parent) {
                seq![CommandView::StartRescan(parent)]
            } else {
                rescan_all
            },
            None => rescan_all,
        })
        + seq![CommandView::Rebuild]
}

/// What follows a successful delete (see `after_delete_spec`).
pub fn after_delete(target: &str, expanded: &Vec<String>, root_path: Option<&str>) -> (r: Vec<Command>)
    ensures
        commands_view(r@) == after_delete_spec(
            target@,
            crate::text::strs(expanded@),
            match root_path { Some(p) => Some(p@), None => None },
        ),
{
    let mut msg = "Deleted: ".to_owned();
    crate::text::push_str(&mut msg, target);
    let mut v = one(Command::Notify(msg, false));
    let ghost first = commands_view(v@);
    let mut middle: Vec<Command> = Vec::new();
    let parent = crate::paths::parent_path(target);
    let mut rescan_parent = false;
    match &parent {
        Some(p) => {
            rescan_parent = crate::tree_view::path_listed(expanded, p.as_str());
            assert(rescan_parent == crate::tree_view::path_in(crate::text::strs(expanded@), p@));
            if rescan_parent {
                middle.push(Command::StartRescan(p.clone()));
            }
        },
        None => {},
    }
    if !rescan_parent {
        match root_path {
            Some(rp) => middle.push(Command::StartScan(rp.to_owned())),
            None => {},
        }
    }
    let ghost mid = commands_view(middle@);
    v.append(&mut middle);
    v.push(Command::Rebuild);
    assert(commands_view(v@) =~= first + mid + seq![CommandView::Rebuild]);
    v
}

/// What an export does before writing: asks first (keeping the export
/// pending) when the target lies in a sensitive place and overwriting was
/// not yet agreed; otherwise writes.
pub enum ExportStep {
    Confirm(PendingAction, Modal),
    Write,
}

/// The step before an export to `path` (see `ExportStep`); `sensitive`
/// says whether the path is a sensitive place.
pub fn export_step(fmt: String, path: String, redact: bool, overwrite: bool, sensitive: bool) -> (r: ExportStep)
    ensures
        match r {
            ExportStep::Confirm(p, d) => {
                &&& sensitive && !overwrite
                &&& p matches PendingAction::Export { fmt: f, path: q, redact: rd, overwrite: ov }
                    && f@ == fmt@ && q@ == path@ && rd == redact && !ov
                &&& d.view() == (ModalView::Confirm {
                    title: "Export Warning"@,
                    message: "Export to a sensitive location?\n\n"@ + path@,
                    selected: 0,
                })
            },
            ExportStep::Write => !(sensitive && !overwrite),
        },
{
    if sensitive && !overwrite {
        let mut message = "Export to a sensitive location?\n\n".to_owned();
        crate::text::push_str(&mut message, path.as_str());
        ExportStep::Confirm(
            PendingAction::Export { fmt, path, redact, overwrite: false },
            Modal::Confirm { title: "Export Warning".to_owned(), message, selected: 0 },
        )
    } else {
        ExportStep::Write
    }
}

/// How a write of the report ended.
pub enum SaveOutcome {
    Saved(String),
    AlreadyExists,
    Failed(String),
}

/// What follows a write attempt: a notice of where the report went; for
/// an existing file, the export pending again with overwriting, behind a
/// dialog; or the failure.
pub fn after_save(
    outcome: SaveOutcome,
    fmt: String,
    path: String,
    redact: bool,
) -> (r: (Option<(PendingAction, Modal)>, Option<Command>))
    ensures
        match outcome {
            SaveOutcome::Saved(s) => {
                &&& r.0 is None
                &&& r.1 matches Some(c) && c.view() == CommandView::Notify("Exported to "@ + s@, false)
            },
            SaveOutcome::Failed(e) => {
                &&& r.0 is None
                &&& r.1 matches Some(c) && c.view() == CommandView::Notify("Export failed: "@ + e@, true)
            },
            SaveOutcome::AlreadyExists => {
                &&& r.1 is None
                &&& r.0 matches Some((p, d))
                &&& p matches PendingAction::Export { fmt: f, path: q, redact: rd, overwrite: ov }
                    && f@ == fmt@ && q@ == path@ && rd == redact && ov
                &&& d.view() == (ModalView::Confirm {
                    title: "Export Overwrite"@,
                    message: "Overwrite existing file?\n\n"@ + path@,
                    selected: 0,
                })
            },
        },
{
    match outcome {
        SaveOutcome::Saved(s) => {
            let mut m = "Exported to ".to_owned();
            crate::text::push_str(&mut m, s.as_str());
            (None, Some(Command::Notify(m, false)))
        },
        SaveOutcome::Failed(e) => {
            let mut m = "Export failed: ".to_owned();
            crate::text::push_str(&mut m, e.as_str());
            (None, Some(Command::Notify(m, true)))
        },
        SaveOutcome::AlreadyExists => {
            let mut message = "Overwrite existing file?\n\n".to_owned();
            crate::text::push_str(&mut message, path.as_str());
            (
                Some((
                    PendingAction::Export { fmt, path, redact, overwrite: true },
                    Modal::Confirm { title: "Export Overwrite".to_owned(), message, selected: 0 },
                )),
                None,
            )
        },
    }
}

} // verus!

verus! {

/// Tab then Shift-Tab comes back to the same view (and the other way
/// round).
pub proof fn law_view_cycle_inverse(v: ViewMode)
    ensures
        cycled_view(cycled_view(v, 1), -1) == v,
        cycled_view(cycled_view(v, -1), 1) == v,
{
}

/// Cycling the sort column seven times comes back to where it started,
/// and every column `j` is met on the way from `k`.
pub proof fn law_sort_cycle_visits_all(k: SortKey, j: SortKey)
    ensures
        next_sort_spec(next_sort_spec(next_sort_spec(next_sort_spec(next_sort_spec(next_sort_spec(next_sort_spec(k))))))) == k,
        j == k || j == next_sort_spec(k) || j == next_sort_spec(next_sort_spec(k))
            || j == next_sort_spec(next_sort_spec(next_sort_spec(k)))
            || j == next_sort_spec(next_sort_spec(next_sort_spec(next_sort_spec(k))))
            || j == next_sort_spec(next_sort_spec(next_sort_spec(next_sort_spec(next_sort_spec(k)))))
            || j == next_sort_spec(next_sort_spec(next_sort_spec(next_sort_spec(next_sort_spec(next_sort_spec(k)))))),
{
}

/// Any path of `LARGE_DELETE_BYTES` or more, file or directory, needs its
/// name typed to confirm a delete; anything smaller gets a yes/no dialog.
pub proof fn law_delete_confirmation(m: NodeModel)
    ensures
        m.size >= LARGE_DELETE_BYTES ==> delete_dialog(m) is TypedConfirm,
        m.size < LARGE_DELETE_BYTES ==> delete_dialog(m) is Confirm,
{
}

} // verus!
