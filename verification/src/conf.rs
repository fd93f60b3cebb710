//! Configuration data: grid geometry, theme, reserved screen margins and the
//! exit shortcut, with their stock defaults, plus home-directory path
//! expansion on plain string values.

use vstd::prelude::*;

use crate::strutil::push_char;

verus! {

/// Grid geometry: the cell layout of the overlay.
#[derive(Debug, Clone)]
pub struct ConfGrid {
    pub rows: u8,
    pub columns: u8,
    pub width: u32,
    pub height: u32,
    pub cover_screen: bool,
}

impl ConfGrid {
    /// The number of cells the grid holds, and so the number of codes needed.
    pub fn total_cells(&self) -> (n: usize)
        ensures
            n == self.rows as int * self.columns as int,
    {
        proof {
            assert(self.rows as int * self.columns as int <= 255 * 255) by (nonlinear_arith)
                requires
                    0 <= self.rows as int <= 255,
                    0 <= self.columns as int <= 255,
            ;
        }
        self.rows as usize * self.columns as usize
    }
}

impl Default for ConfGrid {
    fn default() -> (g: ConfGrid)
        ensures
            g.rows == 30,
            g.columns == 40,
            g.width == 1920,
            g.height == 1080,
            g.cover_screen == true,
    {
        ConfGrid { rows: 30, columns: 40, width: 1920, height: 1080, cover_screen: true }
    }
}

/// Theme values the core carries verbatim into the snapshot. Opacity values
/// are fractional and belong to the rendering layer's own copy, not here.
#[derive(Debug, Clone)]
pub struct ConfTheme {
    pub background_color: String,
    pub foreground_color: String,
    pub line_pixel: u8,
    pub line_color: String,
    pub font_weight: String,
    pub font_size: u8,
}

impl Default for ConfTheme {
    fn default() -> (t: ConfTheme)
        ensures
            t.background_color@ == "#282c34"@,
            t.foreground_color@ == "#abb2bf"@,
            t.line_pixel == 1,
            t.line_color@ == "#56b6c2"@,
            t.font_weight@ == "Bold"@,
            t.font_size == 16,
    {
        ConfTheme {
            background_color: "#282c34".to_owned(),
            foreground_color: "#abb2bf".to_owned(),
            line_pixel: 1,
            line_color: "#56b6c2".to_owned(),
            font_weight: "Bold".to_owned(),
            font_size: 16,
        }
    }
}

/// Screen-edge strips excluded from pointer-placement correction, in pixels.
#[derive(Debug, Clone)]
pub struct ReservedNotCovered {
    pub top: u32,
    pub bottom: u32,
    pub left: u32,
    pub right: u32,
}

impl Default for ReservedNotCovered {
    fn default() -> (r: ReservedNotCovered)
        ensures
            r.top == 0,
            r.bottom == 0,
            r.left == 25,
            r.right == 0,
    {
        ReservedNotCovered { top: 0, bottom: 0, left: 25, right: 0 }
    }
}

/// Keyboard shortcuts: the key value that exits the overlay.
#[derive(Debug, Clone)]
pub struct ConfShortcut {
    pub exit_key: u32,
}

impl Default for ConfShortcut {
    fn default() -> (s: ConfShortcut)
        ensures
            s.exit_key == 0xff1b,
    {
        // The numeric value of the Escape key.
        ConfShortcut { exit_key: 0xff1b }
    }
}

/// The full immutable configuration assembled at startup.
#[derive(Debug, Clone)]
pub struct Conf {
    pub grid: ConfGrid,
    pub theme: ConfTheme,
    pub reserved: ReservedNotCovered,
    pub shortcut: ConfShortcut,
}

impl Default for Conf {
    fn default() -> (c: Conf)
        ensures
            c.grid.rows == 30,
            c.grid.columns == 40,
            c.reserved.left == 25,
            c.shortcut.exit_key == 0xff1b,
    {
        Conf {
            grid: ConfGrid::default(),
            theme: ConfTheme::default(),
            reserved: ReservedNotCovered::default(),
            shortcut: ConfShortcut::default(),
        }
    }
}

/// `s` with every leading occurrence of `c` removed.
pub open spec fn trim_leading(s: Seq<char>, c: char) -> Seq<char>
    decreases s.len(),
{
    if s.len() > 0 && s[0] == c {
        trim_leading(s.drop_first(), c)
    } else {
        s
    }
}

/// Home expansion on character sequences: a path beginning with `~` becomes
/// the home directory, one separator, and the path stripped of its leading
/// `~`s and separators; an empty home directory contributes no separator, so
/// the result stays relative. Anything else is unchanged, as is everything
/// when no home directory is known.
pub open spec fn spec_expand_path(path: Seq<char>, home: Option<Seq<char>>) -> Seq<char> {
    match home {
        Some(h) => if path.len() > 0 && path[0] == '~' {
            if h.len() == 0 {
                trim_leading(trim_leading(path, '~'), '/')
            } else {
                h + seq!['/'] + trim_leading(trim_leading(path, '~'), '/')
            }
        } else {
            path
        },
        None => path,
    }
}

/// Advance past every occurrence of `c` that follows position `from` in `s`.
fn skip_leading(s: &str, from: usize, c: char) -> (i: usize)
    requires
        from <= s@.len(),
    ensures
        from <= i <= s@.len(),
        s@.skip(i as int) == trim_leading(s@.skip(from as int), c),
{
    let n = s.unicode_len();
    let mut i = from;
    while i < n && s.get_char(i) == c
        invariant
            from <= i <= n,
            n == s@.len(),
            trim_leading(s@.skip(i as int), c) == trim_leading(s@.skip(from as int), c),
        decreases n - i,
    {
        proof {
            assert(s@.skip(i as int)[0] == s@[i as int]);
            assert(s@.skip(i as int).drop_first() =~= s@.skip(i as int + 1));
        }
        i = i + 1;
    }
    proof {
        if i < n {
            assert(s@.skip(i as int)[0] == s@[i as int]);
        }
        assert(trim_leading(s@.skip(i as int), c) == s@.skip(i as int));
    }
    i
}

/// Expand a leading `~` in `path_str` to the given home directory, if any:
/// the executable counterpart of [`spec_expand_path`].
pub fn expand_path(path_str: &str, home: Option<&str>) -> (r: String)
    ensures
        r@ == spec_expand_path(path_str@, home.deep_view()),
{
    let n = path_str.unicode_len();
    if n > 0 && path_str.get_char(0) == '~' {
        if let Some(h) = home {
            let i = skip_leading(path_str, 0, '~');
            let j = skip_leading(path_str, i, '/');
            let rest = path_str.substring_char(j, n);
            proof {
                assert(path_str@.skip(0) =~= path_str@);
                assert(path_str@.skip(j as int) =~= path_str@.subrange(
                    j as int,
                    path_str@.len() as int,
                ));
            }
            if h.is_empty() {
                return rest.to_owned();
            }
            let mut out = h.to_owned();
            push_char(&mut out, '/');
            out.append(rest);
            proof {
                assert(out@ =~= spec_expand_path(path_str@, home.deep_view()));
            }
            return out;
        }
        path_str.to_owned()
    } else {
        path_str.to_owned()
    }
}

} // verus!
