//! Colour themes: named palettes mapping UI roles to colours, cycled at
//! run time.

use vstd::prelude::*;
use crate::text::eq_ignore_ascii_case;
use crate::text::eq_ignore_ascii_case_exec;

verus! {

/// A terminal colour.
#[derive(Debug, Clone, Copy, PartialEq, Eq, Structural)]
pub enum ThemeColor {
    Reset,
    Black,
    White,
    Gray,
    DarkGray,
    Blue,
    Cyan,
    Red,
    Yellow,
    Rgb(u8, u8, u8),
}

/// A named palette mapping UI roles to colours.
#[derive(Debug, Clone, Copy, PartialEq, Eq)]
pub struct Theme {
    /// Human-readable name; also the value accepted by `--theme`.
    pub name: &'static str,
    /// Border colour for the main panels.
    pub border: ThemeColor,
    /// Foreground for table headers (always rendered bold).
    pub header: ThemeColor,
    /// Background of the selected table row.
    pub selection_bg: ThemeColor,
    /// Foreground of the selected table row.
    pub selection_fg: ThemeColor,
    /// Background of the filter bar.
    pub filter_bg: ThemeColor,
    /// Foreground of the filter bar.
    pub filter_fg: ThemeColor,
    /// Accent for informational dialogs.
    pub accent: ThemeColor,
    /// Accent for destructive confirmations.
    pub danger: ThemeColor,
    /// Accent for warnings.
    pub warning: ThemeColor,
}

/// An RGB colour.
pub open spec fn rgb(r: u8, g: u8, b: u8) -> ThemeColor {
    ThemeColor::Rgb(r, g, b)
}

/// The built-in themes, in cycle order.
pub open spec fn theme_list() -> Seq<Theme> {
    seq![
        Theme {
            name: "classic",
            border: ThemeColor::Reset,
            header: ThemeColor::Reset,
            selection_bg: ThemeColor::White,
            selection_fg: ThemeColor::Black,
            filter_bg: ThemeColor::Blue,
            filter_fg: ThemeColor::White,
            accent: ThemeColor::Cyan,
            danger: ThemeColor::Red,
            warning: ThemeColor::Yellow,
        },
        Theme {
            name: "nord",
            border: rgb(0x81, 0xA1, 0xC1),
            header: rgb(0x88, 0xC0, 0xD0),
            selection_bg: rgb(0x5E, 0x81, 0xAC),
            selection_fg: rgb(0xEC, 0xEF, 0xF4),
            filter_bg: rgb(0x5E, 0x81, 0xAC),
            filter_fg: rgb(0xEC, 0xEF, 0xF4),
            accent: rgb(0x88, 0xC0, 0xD0),
            danger: rgb(0xBF, 0x61, 0x6A),
            warning: rgb(0xEB, 0xCB, 0x8B),
        },
        Theme {
            name: "gruvbox",
            border: rgb(0x92, 0x83, 0x74),
            header: rgb(0xFA, 0xBD, 0x2F),
            selection_bg: rgb(0x66, 0x5C, 0x54),
            selection_fg: rgb(0xFB, 0xF1, 0xC7),
            filter_bg: rgb(0x45, 0x85, 0x88),
            filter_fg: rgb(0xFB, 0xF1, 0xC7),
            accent: rgb(0x83, 0xA5, 0x98),
            danger: rgb(0xFB, 0x49, 0x34),
            warning: rgb(0xFA, 0xBD, 0x2F),
        },
        Theme {
            name: "solarized",
            border: rgb(0x58, 0x6E, 0x75),
            header: rgb(0x2A, 0xA1, 0x98),
            selection_bg: rgb(0x07, 0x36, 0x42),
            selection_fg: rgb(0x93, 0xA1, 0xA1),
            filter_bg: rgb(0x26, 0x8B, 0xD2),
            filter_fg: rgb(0xFD, 0xF6, 0xE3),
            accent: rgb(0x2A, 0xA1, 0x98),
            danger: rgb(0xDC, 0x32, 0x2F),
            warning: rgb(0xB5, 0x89, 0x00),
        },
        Theme {
            name: "dracula",
            border: rgb(0x62, 0x72, 0xA4),
            header: rgb(0xBD, 0x93, 0xF9),
            selection_bg: rgb(0x44, 0x47, 0x5A),
            selection_fg: rgb(0xF8, 0xF8, 0xF2),
            filter_bg: rgb(0xBD, 0x93, 0xF9),
            filter_fg: rgb(0x28, 0x2A, 0x36),
            accent: rgb(0x8B, 0xE9, 0xFD),
            danger: rgb(0xFF, 0x55, 0x55),
            warning: rgb(0xF1, 0xFA, 0x8C),
        },
        Theme {
            name: "tokyo-night",
            border: rgb(0x56, 0x5F, 0x89),
            header: rgb(0x7A, 0xA2, 0xF7),
            selection_bg: rgb(0x33, 0x46, 0x7C),
            selection_fg: rgb(0xC0, 0xCA, 0xF5),
            filter_bg: rgb(0x7A, 0xA2, 0xF7),
            filter_fg: rgb(0x1A, 0x1B, 0x26),
            accent: rgb(0x7D, 0xCF, 0xFF),
            danger: rgb(0xF7, 0x76, 0x8E),
            warning: rgb(0xE0, 0xAF, 0x68),
        },
        Theme {
            name: "catppuccin",
            border: rgb(0x6C, 0x70, 0x86),
            header: rgb(0xB4, 0xBE, 0xFE),
            selection_bg: rgb(0x45, 0x47, 0x5A),
            selection_fg: rgb(0xCD, 0xD6, 0xF4),
            filter_bg: rgb(0x89, 0xB4, 0xFA),
            filter_fg: rgb(0x1E, 0x1E, 0x2E),
            accent: rgb(0x89, 0xDC, 0xEB),
            danger: rgb(0xF3, 0x8B, 0xA8),
            warning: rgb(0xF9, 0xE2, 0xAF),
        },
        Theme {
            name: "one-dark",
            border: rgb(0x5C, 0x63, 0x70),
            header: rgb(0x61, 0xAF, 0xEF),
            selection_bg: rgb(0x3E, 0x44, 0x51),
            selection_fg: rgb(0xAB, 0xB2, 0xBF),
            filter_bg: rgb(0x61, 0xAF, 0xEF),
            filter_fg: rgb(0x28, 0x2C, 0x34),
            accent: rgb(0x56, 0xB6, 0xC2),
            danger: rgb(0xE0, 0x6C, 0x75),
            warning: rgb(0xE5, 0xC0, 0x7B),
        },
        Theme {
            name: "monokai",
            border: rgb(0x75, 0x71, 0x5E),
            header: rgb(0xA6, 0xE2, 0x2E),
            selection_bg: rgb(0x49, 0x48, 0x3E),
            selection_fg: rgb(0xF8, 0xF8, 0xF2),
            filter_bg: rgb(0xAE, 0x81, 0xFF),
            filter_fg: rgb(0x27, 0x28, 0x22),
            accent: rgb(0x66, 0xD9, 0xEF),
            danger: rgb(0xF9, 0x26, 0x72),
            warning: rgb(0xE6, 0xDB, 0x74),
        },
        Theme {
            name: "monochrome",
            border: ThemeColor::DarkGray,
            header: ThemeColor::White,
            selection_bg: ThemeColor::Gray,
            selection_fg: ThemeColor::Black,
            filter_bg: ThemeColor::DarkGray,
            filter_fg: ThemeColor::White,
            accent: ThemeColor::Gray,
            danger: ThemeColor::White,
            warning: ThemeColor::Gray,
        },
        Theme {
            name: "light",
            border: rgb(0x9C, 0xA0, 0xB0),
            header: rgb(0x1E, 0x66, 0xF5),
            selection_bg: rgb(0xDC, 0xE0, 0xE8),
            selection_fg: rgb(0x4C, 0x4F, 0x69),
            filter_bg: rgb(0x1E, 0x66, 0xF5),
            filter_fg: rgb(0xFF, 0xFF, 0xFF),
            accent: rgb(0x17, 0x92, 0x99),
            danger: rgb(0xD2, 0x0F, 0x39),
            warning: rgb(0xDF, 0x8E, 0x1D),
        }
    ]
}

/// The built-in themes, in cycle order (see `theme_list`).
pub fn themes() -> (r: Vec<Theme>)
    ensures
        r@ == theme_list(),
{
    let mut r: Vec<Theme> = Vec::new();
    r.push(Theme {
        name: "classic",
        border: ThemeColor::Reset,
        header: ThemeColor::Reset,
        selection_bg: ThemeColor::White,
        selection_fg: ThemeColor::Black,
        filter_bg: ThemeColor::Blue,
        filter_fg: ThemeColor::White,
        accent: ThemeColor::Cyan,
        danger: ThemeColor::Red,
        warning: ThemeColor::Yellow,
    });
    r.push(Theme {
        name: "nord",
        border: ThemeColor::Rgb(0x81, 0xA1, 0xC1),
        header: ThemeColor::Rgb(0x88, 0xC0, 0xD0),
        selection_bg: ThemeColor::Rgb(0x5E, 0x81, 0xAC),
        selection_fg: ThemeColor::Rgb(0xEC, 0xEF, 0xF4),
        filter_bg: ThemeColor::Rgb(0x5E, 0x81, 0xAC),
        filter_fg: ThemeColor::Rgb(0xEC, 0xEF, 0xF4),
        accent: ThemeColor::Rgb(0x88, 0xC0, 0xD0),
        danger: ThemeColor::Rgb(0xBF, 0x61, 0x6A),
        warning: ThemeColor::Rgb(0xEB, 0xCB, 0x8B),
    });
    r.push(Theme {
        name: "gruvbox",
        border: ThemeColor::Rgb(0x92, 0x83, 0x74),
        header: ThemeColor::Rgb(0xFA, 0xBD, 0x2F),
        selection_bg: ThemeColor::Rgb(0x66, 0x5C, 0x54),
        selection_fg: ThemeColor::Rgb(0xFB, 0xF1, 0xC7),
        filter_bg: ThemeColor::Rgb(0x45, 0x85, 0x88),
        filter_fg: ThemeColor::Rgb(0xFB, 0xF1, 0xC7),
        accent: ThemeColor::Rgb(0x83, 0xA5, 0x98),
        danger: ThemeColor::Rgb(0xFB, 0x49, 0x34),
        warning: ThemeColor::Rgb(0xFA, 0xBD, 0x2F),
    });
    r.push(Theme {
        name: "solarized",
        border: ThemeColor::Rgb(0x58, 0x6E, 0x75),
        header: ThemeColor::Rgb(0x2A, 0xA1, 0x98),
        selection_bg: ThemeColor::Rgb(0x07, 0x36, 0x42),
        selection_fg: ThemeColor::Rgb(0x93, 0xA1, 0xA1),
        filter_bg: ThemeColor::Rgb(0x26, 0x8B, 0xD2),
        filter_fg: ThemeColor::Rgb(0xFD, 0xF6, 0xE3),
        accent: ThemeColor::Rgb(0x2A, 0xA1, 0x98),
        danger: ThemeColor::Rgb(0xDC, 0x32, 0x2F),
        warning: ThemeColor::Rgb(0xB5, 0x89, 0x00),
    });
    r.push(Theme {
        name: "dracula",
        border: ThemeColor::Rgb(0x62, 0x72, 0xA4),
        header: ThemeColor::Rgb(0xBD, 0x93, 0xF9),
        selection_bg: ThemeColor::Rgb(0x44, 0x47, 0x5A),
        selection_fg: ThemeColor::Rgb(0xF8, 0xF8, 0xF2),
        filter_bg: ThemeColor::Rgb(0xBD, 0x93, 0xF9),
        filter_fg: ThemeColor::Rgb(0x28, 0x2A, 0x36),
        accent: ThemeColor::Rgb(0x8B, 0xE9, 0xFD),
        danger: ThemeColor::Rgb(0xFF, 0x55, 0x55),
        warning: ThemeColor::Rgb(0xF1, 0xFA, 0x8C),
    });
    r.push(Theme {
        name: "tokyo-night",
        border: ThemeColor::Rgb(0x56, 0x5F, 0x89),
        header: ThemeColor::Rgb(0x7A, 0xA2, 0xF7),
        selection_bg: ThemeColor::Rgb(0x33, 0x46, 0x7C),
        selection_fg: ThemeColor::Rgb(0xC0, 0xCA, 0xF5),
        filter_bg: ThemeColor::Rgb(0x7A, 0xA2, 0xF7),
        filter_fg: ThemeColor::Rgb(0x1A, 0x1B, 0x26),
        accent: ThemeColor::Rgb(0x7D, 0xCF, 0xFF),
        danger: ThemeColor::Rgb(0xF7, 0x76, 0x8E),
        warning: ThemeColor::Rgb(0xE0, 0xAF, 0x68),
    });
    r.push(Theme {
        name: "catppuccin",
        border: ThemeColor::Rgb(0x6C, 0x70, 0x86),
        header: ThemeColor::Rgb(0xB4, 0xBE, 0xFE),
        selection_bg: ThemeColor::Rgb(0x45, 0x47, 0x5A),
        selection_fg: ThemeColor::Rgb(0xCD, 0xD6, 0xF4),
        filter_bg: ThemeColor::Rgb(0x89, 0xB4, 0xFA),
        filter_fg: ThemeColor::Rgb(0x1E, 0x1E, 0x2E),
        accent: ThemeColor::Rgb(0x89, 0xDC, 0xEB),
        danger: ThemeColor::Rgb(0xF3, 0x8B, 0xA8),
        warning: ThemeColor::Rgb(0xF9, 0xE2, 0xAF),
    });
    r.push(Theme {
        name: "one-dark",
        border: ThemeColor::Rgb(0x5C, 0x63, 0x70),
        header: ThemeColor::Rgb(0x61, 0xAF, 0xEF),
        selection_bg: ThemeColor::Rgb(0x3E, 0x44, 0x51),
        selection_fg: ThemeColor::Rgb(0xAB, 0xB2, 0xBF),
        filter_bg: ThemeColor::Rgb(0x61, 0xAF, 0xEF),
        filter_fg: ThemeColor::Rgb(0x28, 0x2C, 0x34),
        accent: ThemeColor::Rgb(0x56, 0xB6, 0xC2),
        danger: ThemeColor::Rgb(0xE0, 0x6C, 0x75),
        warning: ThemeColor::Rgb(0xE5, 0xC0, 0x7B),
    });
    r.push(Theme {
        name: "monokai",
        border: ThemeColor::Rgb(0x75, 0x71, 0x5E),
        header: ThemeColor::Rgb(0xA6, 0xE2, 0x2E),
        selection_bg: ThemeColor::Rgb(0x49, 0x48, 0x3E),
        selection_fg: ThemeColor::Rgb(0xF8, 0xF8, 0xF2),
        filter_bg: ThemeColor::Rgb(0xAE, 0x81, 0xFF),
        filter_fg: ThemeColor::Rgb(0x27, 0x28, 0x22),
        accent: ThemeColor::Rgb(0x66, 0xD9, 0xEF),
        danger: ThemeColor::Rgb(0xF9, 0x26, 0x72),
        warning: ThemeColor::Rgb(0xE6, 0xDB, 0x74),
    });
    r.push(Theme {
        name: "monochrome",
        border: ThemeColor::DarkGray,
        header: ThemeColor::White,
        selection_bg: ThemeColor::Gray,
        selection_fg: ThemeColor::Black,
        filter_bg: ThemeColor::DarkGray,
        filter_fg: ThemeColor::White,
        accent: ThemeColor::Gray,
        danger: ThemeColor::White,
        warning: ThemeColor::Gray,
    });
    r.push(Theme {
        name: "light",
        border: ThemeColor::Rgb(0x9C, 0xA0, 0xB0),
        header: ThemeColor::Rgb(0x1E, 0x66, 0xF5),
        selection_bg: ThemeColor::Rgb(0xDC, 0xE0, 0xE8),
        selection_fg: ThemeColor::Rgb(0x4C, 0x4F, 0x69),
        filter_bg: ThemeColor::Rgb(0x1E, 0x66, 0xF5),
        filter_fg: ThemeColor::Rgb(0xFF, 0xFF, 0xFF),
        accent: ThemeColor::Rgb(0x17, 0x92, 0x99),
        danger: ThemeColor::Rgb(0xD2, 0x0F, 0x39),
        warning: ThemeColor::Rgb(0xDF, 0x8E, 0x1D),
    });
    assert(r@ =~= theme_list());
    r
}

/// The number of built-in themes.
pub const THEME_COUNT: usize = 11;

/// The position of the first built-in theme named like `t`, or 0.
pub open spec fn theme_index(t: Theme) -> int {
    theme_index_from(t, 0)
}

/// The position of the first built-in theme from `i` on named like `t`, or 0.
pub open spec fn theme_index_from(t: Theme, i: int) -> int
    decreases THEME_COUNT - i,
{
    if i < 0 || i >= THEME_COUNT {
        0
    } else if theme_list()[i].name@ == t.name@ {
        i
    } else {
        theme_index_from(t, i + 1)
    }
}

/// The first built-in theme whose name equals `name` ignoring ASCII case.
pub open spec fn theme_named_from(name: Seq<char>, i: int) -> Option<Theme>
    decreases THEME_COUNT - i,
{
    if i < 0 || i >= THEME_COUNT {
        None
    } else if eq_ignore_ascii_case(theme_list()[i].name@, name) {
        Some(theme_list()[i])
    } else {
        theme_named_from(name, i + 1)
    }
}

/// The built-in theme after `t`, wrapping around.
pub open spec fn next_theme(t: Theme) -> Theme {
    theme_list()[(theme_index(t) + 1) % (THEME_COUNT as int)]
}

/// The built-in theme before `t`, wrapping around.
pub open spec fn prev_theme(t: Theme) -> Theme {
    theme_list()[(theme_index(t) + THEME_COUNT - 1) % (THEME_COUNT as int)]
}

/// The theme reached from the first one after `k` steps forward.
pub open spec fn after_steps(k: nat) -> Theme
    decreases k,
{
    if k == 0 {
        theme_list()[0]
    } else {
        next_theme(after_steps((k - 1) as nat))
    }
}

impl Theme {
    /// Looks up a built-in theme by name, ignoring ASCII case.
    pub fn from_name(name: &str) -> (r: Option<Theme>)
        ensures
            r == theme_named_from(name@, 0),
    {
        let ts = themes();
        let mut i: usize = 0;
        while i < ts.len()
            invariant
                ts@ == theme_list(),
                i <= THEME_COUNT,
                theme_named_from(name@, 0) == theme_named_from(name@, i as int),
            decreases THEME_COUNT - i,
        {
            if eq_ignore_ascii_case_exec(ts[i].name, name) {
                return Some(ts[i]);
            }
            i = i + 1;
        }
        None
    }

    fn index_in(&self, ts: &Vec<Theme>) -> (r: usize)
        requires
            ts@ == theme_list(),
        ensures
            r == theme_index(*self),
            r < THEME_COUNT,
    {
        let mut i: usize = 0;
        while i < ts.len()
            invariant
                ts@ == theme_list(),
                i <= THEME_COUNT,
                theme_index(*self) == theme_index_from(*self, i as int),
            decreases THEME_COUNT - i,
        {
            if crate::text::chars_eq(&crate::text::chars_of(ts[i].name), &crate::text::chars_of(self.name)) {
                return i;
            }
            i = i + 1;
        }
        0
    }

    /// The position of this theme among the built-in ones (see
    /// `theme_index`).
    pub fn position(&self) -> (r: usize)
        ensures
            r == theme_index(*self),
            r < THEME_COUNT,
    {
        let ts = themes();
        self.index_in(&ts)
    }

    /// The next built-in theme, wrapping around.
    pub fn next(&self) -> (r: Theme)
        ensures
            r == next_theme(*self),
    {
        let ts = themes();
        let i = self.index_in(&ts);
        ts[(i + 1) % THEME_COUNT]
    }

    /// The previous built-in theme, wrapping around.
    pub fn prev(&self) -> (r: Theme)
        ensures
            r == prev_theme(*self),
    {
        let ts = themes();
        let i = self.index_in(&ts);
        ts[(i + THEME_COUNT - 1) % THEME_COUNT]
    }

    /// The default theme, "classic".
    pub fn classic() -> (r: Theme)
        ensures
            r == theme_list()[0],
    {
        themes()[0]
    }
}

impl Default for Theme {
    /// The "classic" theme.
    fn default() -> (r: Theme)
        ensures
            r == theme_list()[0],
    {
        Theme::classic()
    }
}

proof fn lemma_names_distinct()
    ensures
        forall|i: int, j: int| 0 <= i < j < THEME_COUNT ==> #[trigger] theme_list()[i].name@ != #[trigger] theme_list()[j].name@,
{
    reveal_strlit("classic");
    reveal_strlit("nord");
    reveal_strlit("gruvbox");
    reveal_strlit("solarized");
    reveal_strlit("dracula");
    reveal_strlit("tokyo-night");
    reveal_strlit("catppuccin");
    reveal_strlit("one-dark");
    reveal_strlit("monokai");
    reveal_strlit("monochrome");
    reveal_strlit("light");
    assert forall|i: int, j: int| 0 <= i < j < THEME_COUNT implies #[trigger] theme_list()[i].name@ != #[trigger] theme_list()[j].name@ by {
        let a = theme_list()[i].name@;
        let b = theme_list()[j].name@;
        assert(a.len() != b.len() || a[0] != b[0]);
    }
}

proof fn lemma_index_from(i: int, k: int)
    requires
        0 <= k <= i < THEME_COUNT,
    ensures
        theme_index_from(theme_list()[i], k) == i,
    decreases i - k,
{
    lemma_names_distinct();
    if k < i {
        lemma_index_from(i, k + 1);
    }
}

proof fn lemma_index_of_listed(i: int)
    requires
        0 <= i < THEME_COUNT,
    ensures
        theme_index(theme_list()[i]) == i,
{
    lemma_index_from(i, 0);
}

/// The built-in theme names are all different.
pub proof fn law_theme_names_unique(i: int, j: int)
    requires
        0 <= i < THEME_COUNT,
        0 <= j < THEME_COUNT,
        i != j,
    ensures
        theme_list()[i].name@ != theme_list()[j].name@,
{
    lemma_names_distinct();
}

/// Stepping forward then back (or back then forward) from a built-in theme
/// returns to it.
pub proof fn law_next_prev_inverse(i: int)
    requires
        0 <= i < THEME_COUNT,
    ensures
        prev_theme(next_theme(theme_list()[i])) == theme_list()[i],
        next_theme(prev_theme(theme_list()[i])) == theme_list()[i],
{
    lemma_index_of_listed(i);
    lemma_index_of_listed((i + 1) % (THEME_COUNT as int));
    lemma_index_of_listed((i + THEME_COUNT - 1) % (THEME_COUNT as int));
}

/// Stepping forward from the first theme visits the built-in themes in list
/// order: after `k` steps it is at position `k` modulo the number of themes.
/// So the first eleven steps meet eleven different themes, one per name,
/// and the eleventh step is back at the first.
pub proof fn law_cycle_visits_all(k: nat)
    ensures
        after_steps(k) == theme_list()[(k % (THEME_COUNT as nat)) as int],
    decreases k,
{
    if k > 0 {
        law_cycle_visits_all((k - 1) as nat);
        let p = ((k - 1) as nat % (THEME_COUNT as nat)) as int;
        lemma_index_of_listed(p);
        assert((p + 1) % (THEME_COUNT as int) == (k % (THEME_COUNT as nat)) as int);
    }
}

} // verus!
