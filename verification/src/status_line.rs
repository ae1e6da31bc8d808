use vstd::prelude::*;

verus! {

use crate::string::chars_to_string;
use crate::string::decimal_chars;
use crate::string::spaces;
use crate::string::spec_decimal;

/// A one-row summary kept by the terminal chrome: a file name on the left
/// and 1-indexed cursor coordinates on the right.
pub struct StatusLine {
    pub file_name: String,
    pub cursor_x: usize,
    pub cursor_y: usize,
}

/// Cells the status line's content needs: the name, the space after it, and
/// the `(x, y)` coordinate group.
pub open spec fn status_content_width(name: Seq<char>, cx: nat, cy: nat) -> int {
    name.len() + 1 + spec_decimal(cx).len() + 2 + spec_decimal(cy).len() + 1int
}

/// The rendered status line: a leading blank, the name, blank padding, then
/// `(x, y)` and one trailing blank; exactly `width` cells when the width
/// admits the content.
pub open spec fn status_line_chars(name: Seq<char>, cx: nat, cy: nat, width: int) -> Seq<char> {
    let xs = spec_decimal(cx);
    let ys = spec_decimal(cy);
    seq![' '] + name + spaces(width - 2 - status_content_width(name, cx, cy)) + seq!['('] + xs
        + seq![','] + seq![' '] + ys + seq![')'] + seq![' ']
}

/// Renders a status line of exactly `width` cells from its parts.
pub(crate) fn render_status_line(name: &Vec<char>, cx: usize, cy: usize, width: u16) -> (r:
    String)
    requires
        width as int >= 2 + status_content_width(name@, cx as nat, cy as nat),
    ensures
        r@ == status_line_chars(name@, cx as nat, cy as nat, width as int),
        r@.len() == width as int,
{
    let mut out: Vec<char> = Vec::new();
    out.push(' ');
    let mut i: usize = 0;
    let n = name.len();
    while i < n
        invariant
            i <= n,
            n == name@.len(),
            out@ == seq![' '] + name@.subrange(0, i as int),
        decreases n - i,
    {
        let c = name[i];
        out.push(c);
        proof {
            assert(out@ =~= seq![' '] + name@.subrange(0, i + 1));
        }
        i = i + 1;
    }
    proof {
        assert(name@.subrange(0, n as int) =~= name@);
    }
    let xs = decimal_chars(cx);
    let mut xsv = xs;
    let ys = decimal_chars(cy);
    let mut ysv = ys;
    let content = n + 1 + xsv.len() + 2 + ysv.len() + 1;
    let pad = width as usize - 2 - content;
    let ghost head = seq![' '] + name@;
    let mut g: usize = 0;
    while g < pad
        invariant
            g <= pad,
            out@ == head + spaces(g as int),
        decreases pad - g,
    {
        out.push(' ');
        proof {
            assert(out@ =~= head + spaces(g + 1));
        }
        g = g + 1;
    }
    out.push('(');
    out.append(&mut xsv);
    out.push(',');
    out.push(' ');
    out.append(&mut ysv);
    out.push(')');
    out.push(' ');
    let r = chars_to_string(&out);
    proof {
        assert(out@ =~= status_line_chars(name@, cx as nat, cy as nat, width as int));
    }
    r
}

impl StatusLine {
    pub fn new() -> (r: Self)
        ensures
            r.file_name@ == "NO NAME"@,
            r.cursor_x == 0,
            r.cursor_y == 0,
    {
        Self { file_name: String::from_str("NO NAME"), cursor_x: 0, cursor_y: 0 }
    }

    pub fn update_file_name(&mut self, name: String)
        ensures
            final(self).file_name == name,
            final(self).cursor_x == old(self).cursor_x,
            final(self).cursor_y == old(self).cursor_y,
    {
        self.file_name = name;
    }

    /// Records a 0-indexed cursor position; the status line shows positions
    /// 1-indexed.
    pub fn update_cursor_pos(&mut self, cursor_pos: (usize, usize))
        requires
            cursor_pos.0 < usize::MAX,
            cursor_pos.1 < usize::MAX,
        ensures
            final(self).cursor_x == cursor_pos.0 + 1,
            final(self).cursor_y == cursor_pos.1 + 1,
            final(self).file_name == old(self).file_name,
    {
        self.cursor_x = cursor_pos.0 + 1;
        self.cursor_y = cursor_pos.1 + 1;
    }

    /// Renders the status line to exactly `width` cells.
    pub fn get_line(&self, width: u16) -> (r: String)
        requires
            width as int >= 2 + status_content_width(
                self.file_name@,
                self.cursor_x as nat,
                self.cursor_y as nat,
            ),
        ensures
            r@ == status_line_chars(
                self.file_name@,
                self.cursor_x as nat,
                self.cursor_y as nat,
                width as int,
            ),
            r@.len() == width as int,
    {
        let n = self.file_name.as_str().unicode_len();
        let mut name: Vec<char> = Vec::new();
        let mut i: usize = 0;
        while i < n
            invariant
                i <= n,
                n == self.file_name@.len(),
                name@ == self.file_name@.subrange(0, i as int),
            decreases n - i,
        {
            let c = self.file_name.as_str().get_char(i);
            name.push(c);
            proof {
                assert(name@ =~= self.file_name@.subrange(0, i + 1));
            }
            i = i + 1;
        }
        proof {
            assert(self.file_name@.subrange(0, n as int) =~= self.file_name@);
        }
        render_status_line(&name, self.cursor_x, self.cursor_y, width)
    }
}

} // verus!
