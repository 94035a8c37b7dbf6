//! Menu bar, toolbar, and the single `Action` vocabulary that keyboard,
//! mouse, menu and toolbar input all funnel into.
//!
//! The layout helpers are pure functions returning cell spans, shared by
//! drawing and hit-testing so the two cannot drift apart.

use vstd::prelude::*;
use crate::models::SortKey;
use crate::text::{chars_of, pad_right, push_char, push_repeat, push_str, repeat_char, take_chars, truncate_chars};

verus! {

/// The main view.
#[derive(Debug, Clone, Copy, PartialEq, Eq, Structural)]
pub enum ViewMode {
    Tree,
    TopFiles,
    Extensions,
    Volumes,
}

/// Every discrete thing the user can ask the app to do.
#[derive(Debug, Clone, Copy, PartialEq, Eq, Structural)]
pub enum Action {
    Quit,
    Help,
    OpenFilter,
    ClearFilter,
    CycleSort,
    ToggleSortDir,
    SetSort(SortKey),
    RescanSelected,
    RescanTree,
    CancelScan,
    GotoPath,
    ToggleSymlinks,
    ToggleHidden,
    ThemePicker,
    NextView,
    PrevView,
    SetView(ViewMode),
    Collapse,
    Expand,
    ToggleExpandOrScan,
    MoveUp,
    MoveDown,
    PageUp,
    PageDown,
    Home,
    End,
    RevealFinder,
    Delete,
    Export,
}

/// One row in a dropdown menu.
#[derive(Debug, Clone, Copy)]
pub struct MenuItem {
    pub label: &'static str,
    /// Key hint shown right-aligned (e.g. "R", "Tab"); empty for mouse-only items.
    pub key: &'static str,
    pub action: Action,
}

/// A top-level menu: its title in the menu bar and its dropdown items.
#[derive(Debug, Clone)]
pub struct Menu {
    pub title: &'static str,
    pub items: Vec<MenuItem>,
}

/// A clickable toolbar button.
#[derive(Debug, Clone, Copy)]
pub struct ToolButton {
    pub label: &'static str,
    pub action: Action,
}

/// A menu item as a value.
pub open spec fn mi(label: &'static str, key: &'static str, action: Action) -> MenuItem {
    MenuItem { label, key, action }
}

/// The menu titles, left to right.
pub open spec fn menu_titles() -> Seq<&'static str> {
    seq!["File", "View", "Sort", "Actions", "Help"]
}

/// The items of each menu.
pub open spec fn menu_items(i: int) -> Seq<MenuItem> {
    if i == 0 {
        seq![
            mi("Open folder…", "o", Action::GotoPath),
            mi("Export report…", "e", Action::Export),
            mi("Reveal in Finder", "f", Action::RevealFinder),
            mi("Quit", "q", Action::Quit)
        ]
    } else if i == 1 {
        seq![
            mi("Tree", "1", Action::SetView(ViewMode::Tree)),
            mi("Top files", "2", Action::SetView(ViewMode::TopFiles)),
            mi("Extensions", "3", Action::SetView(ViewMode::Extensions)),
            mi("Volumes", "4", Action::SetView(ViewMode::Volumes)),
            mi("Next view", "Tab", Action::NextView),
            mi("Previous view", "S-Tab", Action::PrevView),
            mi("Color theme…", "t", Action::ThemePicker)
        ]
    } else if i == 2 {
        seq![
            mi("Cycle column", "s", Action::CycleSort),
            mi("Toggle direction", "S", Action::ToggleSortDir),
            mi("By name", "", Action::SetSort(SortKey::Name)),
            mi("By size", "", Action::SetSort(SortKey::Size)),
            mi("By allocated", "", Action::SetSort(SortKey::Allocated)),
            mi("By date", "", Action::SetSort(SortKey::Date)),
            mi("By extension", "", Action::SetSort(SortKey::Extension)),
            mi("By owner", "", Action::SetSort(SortKey::Owner)),
            mi("By percent", "", Action::SetSort(SortKey::Percent))
        ]
    } else if i == 3 {
        seq![
            mi("Rescan selected", "r", Action::RescanSelected),
            mi("Rescan all", "R", Action::RescanTree),
            mi("Cancel scan", "c", Action::CancelScan),
            mi("Filter…", "/", Action::OpenFilter),
            mi("Clear filter", "Esc", Action::ClearFilter),
            mi("Toggle hidden", "H", Action::ToggleHidden),
            mi("Toggle symlinks", "v", Action::ToggleSymlinks),
            mi("Delete…", "d", Action::Delete)
        ]
    } else {
        seq![mi("Keyboard shortcuts", "?", Action::Help)]
    }
}

fn push_item(v: &mut Vec<MenuItem>, label: &'static str, key: &'static str, action: Action)
    ensures
        final(v)@ == old(v)@.push(mi(label, key, action)),
{
    v.push(MenuItem { label, key, action });
}

/// All top-level menus, left to right, with their items.
pub fn menus() -> (r: Vec<Menu>)
    ensures
        r@.len() == 5,
        forall|i: int| 0 <= i < 5 ==> (#[trigger] r@[i]).title == menu_titles()[i] && r@[i].items@ == menu_items(i),
{
    let mut file: Vec<MenuItem> = Vec::new();
    push_item(&mut file, "Open folder…", "o", Action::GotoPath);
    push_item(&mut file, "Export report…", "e", Action::Export);
    push_item(&mut file, "Reveal in Finder", "f", Action::RevealFinder);
    push_item(&mut file, "Quit", "q", Action::Quit);
    let mut view: Vec<MenuItem> = Vec::new();
    push_item(&mut view, "Tree", "1", Action::SetView(ViewMode::Tree));
    push_item(&mut view, "Top files", "2", Action::SetView(ViewMode::TopFiles));
    push_item(&mut view, "Extensions", "3", Action::SetView(ViewMode::Extensions));
    push_item(&mut view, "Volumes", "4", Action::SetView(ViewMode::Volumes));
    push_item(&mut view, "Next view", "Tab", Action::NextView);
    push_item(&mut view, "Previous view", "S-Tab", Action::PrevView);
    push_item(&mut view, "Color theme…", "t", Action::ThemePicker);
    let mut sort: Vec<MenuItem> = Vec::new();
    push_item(&mut sort, "Cycle column", "s", Action::CycleSort);
    push_item(&mut sort, "Toggle direction", "S", Action::ToggleSortDir);
    push_item(&mut sort, "By name", "", Action::SetSort(SortKey::Name));
    push_item(&mut sort, "By size", "", Action::SetSort(SortKey::Size));
    push_item(&mut sort, "By allocated", "", Action::SetSort(SortKey::Allocated));
    push_item(&mut sort, "By date", "", Action::SetSort(SortKey::Date));
    push_item(&mut sort, "By extension", "", Action::SetSort(SortKey::Extension));
    push_item(&mut sort, "By owner", "", Action::SetSort(SortKey::Owner));
    push_item(&mut sort, "By percent", "", Action::SetSort(SortKey::Percent));
    let mut actions: Vec<MenuItem> = Vec::new();
    push_item(&mut actions, "Rescan selected", "r", Action::RescanSelected);
    push_item(&mut actions, "Rescan all", "R", Action::RescanTree);
    push_item(&mut actions, "Cancel scan", "c", Action::CancelScan);
    push_item(&mut actions, "Filter…", "/", Action::OpenFilter);
    push_item(&mut actions, "Clear filter", "Esc", Action::ClearFilter);
    push_item(&mut actions, "Toggle hidden", "H", Action::ToggleHidden);
    push_item(&mut actions, "Toggle symlinks", "v", Action::ToggleSymlinks);
    push_item(&mut actions, "Delete…", "d", Action::Delete);
    let mut help: Vec<MenuItem> = Vec::new();
    push_item(&mut help, "Keyboard shortcuts", "?", Action::Help);
    assert(file@ =~= menu_items(0));
    assert(view@ =~= menu_items(1));
    assert(sort@ =~= menu_items(2));
    assert(actions@ =~= menu_items(3));
    assert(help@ =~= menu_items(4));
    let mut r: Vec<Menu> = Vec::new();
    r.push(Menu { title: "File", items: file });
    r.push(Menu { title: "View", items: view });
    r.push(Menu { title: "Sort", items: sort });
    r.push(Menu { title: "Actions", items: actions });
    r.push(Menu { title: "Help", items: help });
    r
}

/// The toolbar buttons: the four views first, then the common actions.
pub open spec fn toolbar_spec() -> Seq<ToolButton> {
    seq![
        ToolButton { label: "Tree", action: Action::SetView(ViewMode::Tree) },
        ToolButton { label: "Files", action: Action::SetView(ViewMode::TopFiles) },
        ToolButton { label: "Ext", action: Action::SetView(ViewMode::Extensions) },
        ToolButton { label: "Vols", action: Action::SetView(ViewMode::Volumes) },
        ToolButton { label: "Rescan", action: Action::RescanSelected },
        ToolButton { label: "Filter", action: Action::OpenFilter },
        ToolButton { label: "Sort", action: Action::CycleSort },
        ToolButton { label: "Hidden", action: Action::ToggleHidden },
        ToolButton { label: "Theme", action: Action::ThemePicker },
        ToolButton { label: "Export", action: Action::Export },
        ToolButton { label: "Help", action: Action::Help },
        ToolButton { label: "Quit", action: Action::Quit }
    ]
}

/// Quick-access toolbar buttons (see `toolbar_spec`).
pub fn toolbar() -> (r: Vec<ToolButton>)
    ensures
        r@ == toolbar_spec(),
{
    let mut r: Vec<ToolButton> = Vec::new();
    r.push(ToolButton { label: "Tree", action: Action::SetView(ViewMode::Tree) });
    r.push(ToolButton { label: "Files", action: Action::SetView(ViewMode::TopFiles) });
    r.push(ToolButton { label: "Ext", action: Action::SetView(ViewMode::Extensions) });
    r.push(ToolButton { label: "Vols", action: Action::SetView(ViewMode::Volumes) });
    r.push(ToolButton { label: "Rescan", action: Action::RescanSelected });
    r.push(ToolButton { label: "Filter", action: Action::OpenFilter });
    r.push(ToolButton { label: "Sort", action: Action::CycleSort });
    r.push(ToolButton { label: "Hidden", action: Action::ToggleHidden });
    r.push(ToolButton { label: "Theme", action: Action::ThemePicker });
    r.push(ToolButton { label: "Export", action: Action::Export });
    r.push(ToolButton { label: "Help", action: Action::Help });
    r.push(ToolButton { label: "Quit", action: Action::Quit });
    assert(r@ =~= toolbar_spec());
    r
}

} // verus!

verus! {

/// `x` capped at the largest `u16`.
pub open spec fn sat16(x: int) -> u16 {
    if x > 65535 { 65535 } else if x < 0 { 0 } else { x as u16 }
}

/// The text of a row: the cells joined by `sep` spaces.
pub open spec fn row_text(cells: Seq<Seq<char>>, sep: nat) -> Seq<char>
    decreases cells.len(),
{
    if cells.len() == 0 {
        Seq::empty()
    } else if cells.len() == 1 {
        cells[0]
    } else {
        row_text(cells.drop_last(), sep) + repeat_char(' ', sep) + cells.last()
    }
}

/// The `(x, width)` span of each cell and the column after the last one;
/// positions and widths are `u16` (widths and the separator cast to `u16`,
/// positions saturating).
pub open spec fn row_spans(cells: Seq<Seq<char>>, sep: usize) -> (Seq<(u16, u16)>, u16)
    decreases cells.len(),
{
    if cells.len() == 0 {
        (Seq::empty(), 0)
    } else {
        let (sp, x) = row_spans(cells.drop_last(), sep);
        let x1 = if cells.len() > 1 { sat16(x + (sep as u16)) } else { x };
        let w = cells.last().len() as u16;
        (sp.push((x1, w)), sat16(x1 + w))
    }
}

/// One row of labelled cells separated by `sep` spaces: the text, and the
/// span of each cell (x relative to the row's left edge).
pub fn render_row(cells: &Vec<String>, sep: usize) -> (r: (String, Vec<(u16, u16)>))
    ensures
        r.0@ == row_text(cells@.map_values(|c: String| c@), sep as nat),
        r.1@ == row_spans(cells@.map_values(|c: String| c@), sep).0,
{
    let ghost cs = cells@.map_values(|c: String| c@);
    let mut text = String::new();
    let mut spans: Vec<(u16, u16)> = Vec::new();
    let mut x: u16 = 0;
    assert(cs.take(0) =~= Seq::<Seq<char>>::empty());
    for i in 0..cells.len()
        invariant
            cs == cells@.map_values(|c: String| c@),
            text@ == row_text(cs.take(i as int), sep as nat),
            (spans@, x) == row_spans(cs.take(i as int), sep),
    {
        let ghost t1 = cs.take(i + 1);
        assert(t1.drop_last() == cs.take(i as int));
        assert(t1.last() == cells@[i as int]@);
        if i > 0 {
            push_repeat(&mut text, ' ', sep);
            x = x.saturating_add(sep as u16);
        }
        let w = chars_of(cells[i].as_str()).len() as u16;
        spans.push((x, w));
        push_str(&mut text, cells[i].as_str());
        x = x.saturating_add(w);
        proof {
            if i == 0 {
                assert(t1 =~= seq![cells@[0]@]);
                assert(text@ =~= row_text(t1, sep as nat));
            }
        }
    }
    assert(cs.take(cells@.len() as int) == cs);
    (text, spans)
}

/// The menu-bar cell of each menu: its title with a space on each side.
pub fn menu_bar_cells() -> (r: Vec<String>)
    ensures
        r@.len() == menu_titles().len(),
        forall|i: int| 0 <= i < r@.len() ==> (#[trigger] r@[i])@ == seq![' '] + menu_titles()[i]@ + seq![' '],
{
    let ms = menus();
    let mut r: Vec<String> = Vec::new();
    for i in 0..ms.len()
        invariant
            ms@.len() == 5,
            forall|k: int| 0 <= k < 5 ==> (#[trigger] ms@[k]).title == menu_titles()[k],
            r@.len() == i,
            forall|j: int| 0 <= j < i ==> (#[trigger] r@[j])@ == seq![' '] + menu_titles()[j]@ + seq![' '],
    {
        let mut c = String::new();
        push_char(&mut c, ' ');
        push_str(&mut c, ms[i].title);
        push_char(&mut c, ' ');
        assert(c@ =~= seq![' '] + menu_titles()[i as int]@ + seq![' ']);
        r.push(c);
    }
    r
}

/// The toolbar cell of each button: its label in brackets.
pub fn toolbar_cells() -> (r: Vec<String>)
    ensures
        r@.len() == toolbar_spec().len(),
        forall|i: int| 0 <= i < r@.len() ==> (#[trigger] r@[i])@ == seq!['['] + toolbar_spec()[i].label@ + seq![']'],
{
    let bs = toolbar();
    let mut r: Vec<String> = Vec::new();
    for i in 0..bs.len()
        invariant
            bs@ == toolbar_spec(),
            r@.len() == i,
            forall|j: int| 0 <= j < i ==> (#[trigger] r@[j])@ == seq!['['] + toolbar_spec()[j].label@ + seq![']'],
    {
        let mut c = String::new();
        push_char(&mut c, '[');
        push_str(&mut c, bs[i].label);
        push_char(&mut c, ']');
        assert(c@ =~= seq!['['] + toolbar_spec()[i as int].label@ + seq![']']);
        r.push(c);
    }
    r
}

/// The widest `label + key` row of a dropdown plus three columns of gaps
/// (8 for an empty menu).
pub open spec fn dropdown_inner(items: Seq<MenuItem>) -> nat
    decreases items.len(),
{
    if items.len() == 0 {
        8
    } else {
        let w = items.last().label@.len() + items.last().key@.len() + 3;
        let rest = if items.len() == 1 { 0 } else { dropdown_inner(items.drop_last()) };
        if w > rest { w } else { rest }
    }
}

/// The width a dropdown needs: its widest row (cast to `u16`) plus two
/// border columns, saturating.
pub fn dropdown_width(menu: &Menu) -> (r: u16)
    ensures
        r == sat16((dropdown_inner(menu.items@) as u16) + 2),
{
    let n = menu.items.len();
    if n == 0 {
        return 10;
    }
    let mut inner: u128 = 0;
    for i in 0..n
        invariant
            n == menu.items@.len(),
            n > 0,
            i == 0 ==> inner == 0,
            i > 0 ==> inner == dropdown_inner(menu.items@.take(i as int)),
    {
        let it = menu.items[i];
        let w = chars_of(it.label).len() as u128 + chars_of(it.key).len() as u128 + 3;
        assert(menu.items@.take(i + 1).drop_last() == menu.items@.take(i as int));
        assert(menu.items@.take(i + 1).last() == it);
        if w > inner {
            inner = w;
        }
    }
    assert(menu.items@.take(n as int) == menu.items@);
    (inner as u16).saturating_add(2)
}

/// A dropdown row's text in `inner_width` columns: the label (cut to leave
/// room for the key and a gap, but at least one character), padding, and
/// the key hint at the right edge.
pub open spec fn dropdown_text_spec(item: MenuItem, inner_width: nat) -> Seq<char> {
    let kw = item.key@.len();
    let room: nat = if inner_width > kw + 1 { (inner_width - kw - 1) as nat } else { 1 };
    let label = take_chars(item.label@, room);
    let pad: nat = if inner_width > label.len() + kw { (inner_width - label.len() - kw) as nat } else { 0 };
    label + repeat_char(' ', pad) + item.key@
}

/// Formats one dropdown row (see `dropdown_text_spec`).
pub fn dropdown_item_text(item: &MenuItem, inner_width: usize) -> (r: String)
    ensures
        r@ == dropdown_text_spec(*item, inner_width as nat),
{
    let kw = chars_of(item.key).len();
    let room: usize = if inner_width > kw && inner_width - kw > 1 { inner_width - kw - 1 } else { 1 };
    let mut label = truncate_chars(item.label, room);
    let ll = chars_of(label.as_str()).len();
    let pad: usize = if inner_width > ll && inner_width - ll > kw { inner_width - ll - kw } else { 0 };
    push_repeat(&mut label, ' ', pad);
    push_str(&mut label, item.key);
    label
}

} // verus!

verus! {

/// A key as the front end reports it.
#[derive(Debug, Clone, Copy, PartialEq, Eq, Structural)]
pub enum Key {
    Char(char),
    Tab,
    BackTab,
    Left,
    Right,
    Up,
    Down,
    Enter,
    Esc,
    Backspace,
    PageUp,
    PageDown,
    Home,
    End,
    Other,
}

/// A key press: the key and whether Shift was held.
#[derive(Debug, Clone, Copy, PartialEq, Eq, Structural)]
pub struct KeyPress {
    pub code: Key,
    pub shift: bool,
}

/// The action bound to a key, whatever the context (`None` for keys handled
/// in context, such as Esc, or unbound). `s` and `r` with Shift act like
/// `S` and `R`.
pub open spec fn key_action(k: KeyPress) -> Option<Action> {
    match k.code {
        Key::Char(c) => {
            if c == 'q' { Some(Action::Quit) }
            else if c == '?' { Some(Action::Help) }
            else if c == '/' { Some(Action::OpenFilter) }
            else if c == 's' && k.shift { Some(Action::ToggleSortDir) }
            else if c == 'S' { Some(Action::ToggleSortDir) }
            else if c == 's' { Some(Action::CycleSort) }
            else if c == 'r' && k.shift { Some(Action::RescanTree) }
            else if c == 'R' { Some(Action::RescanTree) }
            else if c == 'r' { Some(Action::RescanSelected) }
            else if c == 'c' { Some(Action::CancelScan) }
            else if c == 'g' || c == 'o' { Some(Action::GotoPath) }
            else if c == 'v' { Some(Action::ToggleSymlinks) }
            else if c == 'H' { Some(Action::ToggleHidden) }
            else if c == 't' || c == 'T' { Some(Action::ThemePicker) }
            else if c == '1' { Some(Action::SetView(ViewMode::Tree)) }
            else if c == '2' { Some(Action::SetView(ViewMode::TopFiles)) }
            else if c == '3' { Some(Action::SetView(ViewMode::Extensions)) }
            else if c == '4' { Some(Action::SetView(ViewMode::Volumes)) }
            else if c == 'h' { Some(Action::Collapse) }
            else if c == 'l' { Some(Action::Expand) }
            else if c == 'j' { Some(Action::MoveDown) }
            else if c == 'k' { Some(Action::MoveUp) }
            else if c == 'f' { Some(Action::RevealFinder) }
            else if c == 'd' { Some(Action::Delete) }
            else if c == 'e' { Some(Action::Export) }
            else { None }
        },
        Key::Tab => Some(Action::NextView),
        Key::BackTab => Some(Action::PrevView),
        Key::Left => Some(Action::Collapse),
        Key::Right => Some(Action::Expand),
        Key::Enter => Some(Action::ToggleExpandOrScan),
        Key::Down => Some(Action::MoveDown),
        Key::Up => Some(Action::MoveUp),
        Key::PageDown => Some(Action::PageDown),
        Key::PageUp => Some(Action::PageUp),
        Key::Home => Some(Action::Home),
        Key::End => Some(Action::End),
        _ => None,
    }
}

/// Translates a key press into an action (see `key_action`).
pub fn key_to_action(key: KeyPress) -> (r: Option<Action>)
    ensures
        r == key_action(key),
{
    let shift = key.shift;
    match key.code {
        Key::Char(c) => {
            if c == 'q' { Some(Action::Quit) }
            else if c == '?' { Some(Action::Help) }
            else if c == '/' { Some(Action::OpenFilter) }
            else if c == 's' && shift { Some(Action::ToggleSortDir) }
            else if c == 'S' { Some(Action::ToggleSortDir) }
            else if c == 's' { Some(Action::CycleSort) }
            else if c == 'r' && shift { Some(Action::RescanTree) }
            else if c == 'R' { Some(Action::RescanTree) }
            else if c == 'r' { Some(Action::RescanSelected) }
            else if c == 'c' { Some(Action::CancelScan) }
            else if c == 'g' || c == 'o' { Some(Action::GotoPath) }
            else if c == 'v' { Some(Action::ToggleSymlinks) }
            else if c == 'H' { Some(Action::ToggleHidden) }
            else if c == 't' || c == 'T' { Some(Action::ThemePicker) }
            else if c == '1' { Some(Action::SetView(ViewMode::Tree)) }
            else if c == '2' { Some(Action::SetView(ViewMode::TopFiles)) }
            else if c == '3' { Some(Action::SetView(ViewMode::Extensions)) }
            else if c == '4' { Some(Action::SetView(ViewMode::Volumes)) }
            else if c == 'h' { Some(Action::Collapse) }
            else if c == 'l' { Some(Action::Expand) }
            else if c == 'j' { Some(Action::MoveDown) }
            else if c == 'k' { Some(Action::MoveUp) }
            else if c == 'f' { Some(Action::RevealFinder) }
            else if c == 'd' { Some(Action::Delete) }
            else if c == 'e' { Some(Action::Export) }
            else { None }
        },
        Key::Tab => Some(Action::NextView),
        Key::BackTab => Some(Action::PrevView),
        Key::Left => Some(Action::Collapse),
        Key::Right => Some(Action::Expand),
        Key::Enter => Some(Action::ToggleExpandOrScan),
        Key::Down => Some(Action::MoveDown),
        Key::Up => Some(Action::MoveUp),
        Key::PageDown => Some(Action::PageDown),
        Key::PageUp => Some(Action::PageUp),
        Key::Home => Some(Action::Home),
        Key::End => Some(Action::End),
        _ => None,
    }
}

/// The key a menu hint names: a single character, `Tab`, or `S-Tab`
/// (Shift+Tab); none for other hints.
pub open spec fn hint_key(hint: Seq<char>) -> Option<KeyPress> {
    if hint.len() == 1 {
        Some(KeyPress { code: Key::Char(hint[0]), shift: false })
    } else if hint == "Tab"@ {
        Some(KeyPress { code: Key::Tab, shift: false })
    } else if hint == "S-Tab"@ {
        Some(KeyPress { code: Key::BackTab, shift: true })
    } else {
        None
    }
}

/// Every menu item whose hint names a key is reachable by that key: pressing
/// it yields the item's own action. (The one other hint, Esc for "Clear
/// filter", is handled by the front end before the key map.)
pub proof fn law_menu_hints_match_keys(m: int, i: int)
    requires
        0 <= m < 5,
        0 <= i < menu_items(m).len(),
        hint_key(menu_items(m)[i].key@) is Some,
    ensures
        key_action(hint_key(menu_items(m)[i].key@)->0) == Some(menu_items(m)[i].action),
{
    reveal_strlit("o");
    reveal_strlit("e");
    reveal_strlit("f");
    reveal_strlit("q");
    reveal_strlit("1");
    reveal_strlit("2");
    reveal_strlit("3");
    reveal_strlit("4");
    reveal_strlit("Tab");
    reveal_strlit("S-Tab");
    reveal_strlit("t");
    reveal_strlit("s");
    reveal_strlit("S");
    reveal_strlit("");
    reveal_strlit("r");
    reveal_strlit("R");
    reveal_strlit("c");
    reveal_strlit("/");
    reveal_strlit("Esc");
    reveal_strlit("H");
    reveal_strlit("v");
    reveal_strlit("d");
    reveal_strlit("?");
}

} // verus!
