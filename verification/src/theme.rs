use vstd::prelude::*;

verus! {

/// A 24-bit color, the form every color takes once a hex string is decoded.
#[derive(Clone, Copy, Debug, PartialEq, Eq, Structural)]
pub struct Rgb {
    pub r: u8,
    pub g: u8,
    pub b: u8,
}

/// The color palette, each entry a `#RRGGBB` hex string as it appears in a
/// theme file.
pub struct Theme {
    pub ui: UIColors,
    pub editor: EditorColors,
    pub overlay: OverlayColors,
    pub status_line: StatusLineColors,
}

pub struct UIColors {
    pub base_bg: String,
    pub base_text: String,
}

pub struct EditorColors {
    pub bg: String,
    pub current_line: String,
    pub text: String,
    pub comments: String,
    pub keywords: String,
    pub string_literal: String,
    pub number_literal: String,
    pub line_numbers: String,
}

pub struct OverlayColors {
    pub bg: String,
    pub text: String,
}

pub struct StatusLineColors {
    pub bg: String,
    pub text: String,
}

pub open spec fn is_hex_digit(c: char) -> bool {
    ('0' <= c && c <= '9') || ('a' <= c && c <= 'f') || ('A' <= c && c <= 'F')
}

/// The value of one hexadecimal digit.
pub open spec fn hex_val(c: char) -> int {
    if '0' <= c && c <= '9' {
        c as int - '0' as int
    } else if 'a' <= c && c <= 'f' {
        c as int - 'a' as int + 10
    } else {
        c as int - 'A' as int + 10
    }
}

/// Length of the run of `#` marks a color string starts with.
pub open spec fn hash_prefix_len(s: Seq<char>) -> int
    decreases s.len(),
{
    if s.len() > 0 && s[0] == '#' {
        1 + hash_prefix_len(s.drop_first())
    } else {
        0
    }
}

pub(crate) proof fn lemma_hash_prefix(s: Seq<char>, k: int)
    requires
        0 <= k <= s.len(),
        forall|i: int| 0 <= i < k ==> s[i] == '#',
        k < s.len() ==> s[k] != '#',
    ensures
        hash_prefix_len(s) == k,
    decreases k,
{
    if k == 0 {
    } else {
        lemma_hash_prefix(s.drop_first(), k - 1);
    }
}

/// A well-formed color string: a run of leading `#` marks followed by at
/// least six hexadecimal digits.
pub open spec fn valid_hex_color(s: Seq<char>) -> bool {
    let h = hash_prefix_len(s);
    s.len() >= h + 6 && forall|i: int| h <= i < h + 6 ==> is_hex_digit(#[trigger] s[i])
}

/// The three channel values a color string decodes to.
pub open spec fn spec_hex_to_rgb(s: Seq<char>) -> (int, int, int) {
    let h = hash_prefix_len(s);
    (
        16 * hex_val(s[h]) + hex_val(s[h + 1]),
        16 * hex_val(s[h + 2]) + hex_val(s[h + 3]),
        16 * hex_val(s[h + 4]) + hex_val(s[h + 5]),
    )
}

/// The decoded color of a color string.
pub open spec fn spec_rgb(s: Seq<char>) -> Rgb {
    let (r, g, b) = spec_hex_to_rgb(s);
    Rgb { r: r as u8, g: g as u8, b: b as u8 }
}

impl Theme {
    /// Every color string of the palette is a well-formed hex color.
    pub open spec fn wf(self) -> bool {
        &&& valid_hex_color(self.ui.base_bg@)
        &&& valid_hex_color(self.ui.base_text@)
        &&& valid_hex_color(self.editor.bg@)
        &&& valid_hex_color(self.editor.current_line@)
        &&& valid_hex_color(self.editor.text@)
        &&& valid_hex_color(self.editor.comments@)
        &&& valid_hex_color(self.editor.keywords@)
        &&& valid_hex_color(self.editor.string_literal@)
        &&& valid_hex_color(self.editor.number_literal@)
        &&& valid_hex_color(self.editor.line_numbers@)
        &&& valid_hex_color(self.overlay.bg@)
        &&& valid_hex_color(self.overlay.text@)
        &&& valid_hex_color(self.status_line.bg@)
        &&& valid_hex_color(self.status_line.text@)
    }

    /// Decodes a `#RRGGBB` color string into its three channel values,
    /// ignoring the leading `#` marks.
    pub fn hex_to_rgb(hex: &str) -> (rgb: (u8, u8, u8))
        requires
            valid_hex_color(hex@),
        ensures
            (rgb.0 as int, rgb.1 as int, rgb.2 as int) == spec_hex_to_rgb(hex@),
    {
        let n = hex.unicode_len();
        let mut h: usize = 0;
        while h < n && hex.get_char(h) == '#'
            invariant
                0 <= h <= n,
                n == hex@.len(),
                forall|i: int| 0 <= i < h ==> hex@[i] == '#',
            decreases n - h,
        {
            h = h + 1;
        }
        proof {
            lemma_hash_prefix(hex@, h as int);
        }
        let d0 = hex_digit_val(hex.get_char(h));
        let d1 = hex_digit_val(hex.get_char(h + 1));
        let d2 = hex_digit_val(hex.get_char(h + 2));
        let d3 = hex_digit_val(hex.get_char(h + 3));
        let d4 = hex_digit_val(hex.get_char(h + 4));
        let d5 = hex_digit_val(hex.get_char(h + 5));
        (16 * d0 + d1, 16 * d2 + d3, 16 * d4 + d5)
    }
}

fn hex_digit_val(c: char) -> (v: u8)
    requires
        is_hex_digit(c),
    ensures
        v as int == hex_val(c),
        v < 16,
{
    if c >= '0' && c <= '9' {
        (c as u8) - 48
    } else if c >= 'a' && c <= 'f' {
        (c as u8) - 97 + 10
    } else {
        (c as u8) - 65 + 10
    }
}

impl Default for Theme {
    /// The built-in palette used when no theme file overrides it.
    fn default() -> (r: Theme)
        ensures
            r.wf(),
            r.ui.base_bg@ == "#1a1d23"@,
            r.ui.base_text@ == "#e0e0e0"@,
            r.editor.bg@ == "#1f2329"@,
            r.editor.current_line@ == "#333b47"@,
            r.editor.text@ == "#eaeaea"@,
            r.editor.comments@ == "#6d7f6d"@,
            r.editor.keywords@ == "#FFA07A"@,
            r.editor.string_literal@ == "#98c379"@,
            r.editor.number_literal@ == "#a6a9d6"@,
            r.editor.line_numbers@ == "#767f8c"@,
            r.overlay.bg@ == "#282c34"@,
            r.overlay.text@ == "#f8f8f2"@,
            r.status_line.bg@ == "#3b4048"@,
            r.status_line.text@ == "#ffffff"@,
    {
        proof {
            reveal_strlit("#1a1d23");
            reveal_strlit("#e0e0e0");
            reveal_strlit("#1f2329");
            reveal_strlit("#333b47");
            reveal_strlit("#eaeaea");
            reveal_strlit("#6d7f6d");
            reveal_strlit("#FFA07A");
            reveal_strlit("#98c379");
            reveal_strlit("#a6a9d6");
            reveal_strlit("#767f8c");
            reveal_strlit("#282c34");
            reveal_strlit("#f8f8f2");
            reveal_strlit("#3b4048");
            reveal_strlit("#ffffff");
            lemma_hash_prefix("#1a1d23"@, 1);
            lemma_hash_prefix("#e0e0e0"@, 1);
            lemma_hash_prefix("#1f2329"@, 1);
            lemma_hash_prefix("#333b47"@, 1);
            lemma_hash_prefix("#eaeaea"@, 1);
            lemma_hash_prefix("#6d7f6d"@, 1);
            lemma_hash_prefix("#FFA07A"@, 1);
            lemma_hash_prefix("#98c379"@, 1);
            lemma_hash_prefix("#a6a9d6"@, 1);
            lemma_hash_prefix("#767f8c"@, 1);
            lemma_hash_prefix("#282c34"@, 1);
            lemma_hash_prefix("#f8f8f2"@, 1);
            lemma_hash_prefix("#3b4048"@, 1);
            lemma_hash_prefix("#ffffff"@, 1);
        }
        Theme {
            ui: UIColors {
                base_bg: String::from_str("#1a1d23"),
                base_text: String::from_str("#e0e0e0"),
            },
            editor: EditorColors {
                bg: String::from_str("#1f2329"),
                current_line: String::from_str("#333b47"),
                text: String::from_str("#eaeaea"),
                comments: String::from_str("#6d7f6d"),
                keywords: String::from_str("#FFA07A"),
                string_literal: String::from_str("#98c379"),
                number_literal: String::from_str("#a6a9d6"),
                line_numbers: String::from_str("#767f8c"),
            },
            overlay: OverlayColors {
                bg: String::from_str("#282c34"),
                text: String::from_str("#f8f8f2"),
            },
            status_line: StatusLineColors {
                bg: String::from_str("#3b4048"),
                text: String::from_str("#ffffff"),
            },
        }
    }
}

} // verus!
