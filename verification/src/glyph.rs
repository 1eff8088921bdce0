//! One glyph of a font: the fixed-height ASCII-art rows for one code point,
//! and the stripping that turns raw font lines into those rows.

use vstd::prelude::*;

verus! {

/// Mathematical content of a [`FIGcharacter`].
pub ghost struct GlyphModel {
    pub code: u32,
    pub rows: Seq<Seq<char>>,
    pub width: u32,
    pub height: u32,
}

/// The ASCII art of one character: its code point, its rows (terminators
/// already stripped and hardblanks already replaced), the width of its first
/// row and its height.
pub struct FIGcharacter {
    pub code: u32,
    pub characters: Vec<String>,
    pub width: u32,
    pub height: u32,
}

impl View for FIGcharacter {
    type V = GlyphModel;

    open spec fn view(&self) -> GlyphModel {
        GlyphModel {
            code: self.code,
            rows: self.characters.deep_view(),
            width: self.width,
            height: self.height,
        }
    }
}

/// No row of the glyph holds a line break.
pub open spec fn rows_newline_free(g: GlyphModel) -> bool {
    forall|i: int| 0 <= i < g.rows.len() ==> !(#[trigger] g.rows[i]).contains('\n')
}

impl GlyphModel {
    /// A glyph as extraction produces it: `height` rows, none holding a line
    /// break.
    pub open spec fn wf(self, height: int) -> bool {
        &&& self.rows.len() == height
        &&& self.height == height
        &&& rows_newline_free(self)
    }
}

impl FIGcharacter {
    /// The glyph's rows joined with a line break: its text form.
    pub fn render(&self) -> (r: String)
        ensures
            r@ == crate::text::spec_join_nl(self@.rows),
    {
        let r = crate::text::join_range(&self.characters, 0, self.characters.len());
        proof {
            assert(self.characters.deep_view().subrange(0, self.characters@.len() as int)
                =~= self@.rows);
        }
        r
    }
}

/// `s` with every occurrence of the hardblank replaced by an ordinary space.
pub open spec fn spec_replace(s: Seq<char>, hb: char) -> Seq<char> {
    s.map_values(
        |c: char|
            if c == hb {
                ' '
            } else {
                c
            },
    )
}

/// A row's printable text: the trailing terminator dropped — two characters
/// on the final row of a glyph, which carries a doubled terminator marking
/// end-of-glyph; a row shorter than that is cut to nothing — and every
/// hardblank replaced by a space.
pub open spec fn spec_strip_row(row: Seq<char>, is_last: bool, hb: char) -> Seq<char> {
    let d: int = if is_last {
        2
    } else {
        1
    };
    let keep: int = if row.len() >= d {
        row.len() - d
    } else {
        0
    };
    spec_replace(row.take(keep), hb)
}

/// The rows of the glyph whose first row is line `start`.
pub open spec fn spec_glyph_rows(
    lines: Seq<Seq<char>>,
    start: int,
    height: int,
    hb: char,
) -> Seq<Seq<char>> {
    Seq::new(height as nat, |i: int| spec_strip_row(lines[start + i], i == height - 1, hb))
}

/// The glyph extracted for `code` at line `start`: its stripped rows, its
/// width (the first row's length, reduced modulo 2^32 as storing it in 32
/// bits does), and its height.
pub open spec fn spec_glyph(
    lines: Seq<Seq<char>>,
    code: u32,
    start: int,
    height: int,
    hb: char,
) -> GlyphModel {
    let rows = spec_glyph_rows(lines, start, height, hb);
    GlyphModel {
        code,
        rows,
        width: (rows[0].len() % 0x1_0000_0000) as u32,
        height: height as u32,
    }
}

/// `row` with every occurrence of `hb` replaced by a space.
pub fn replace_hardblank(row: &str, hb: char) -> (r: String)
    ensures
        r@ == spec_replace(row@, hb),
{
    let n = row.unicode_len();
    let mut r = String::new();
    let mut i: usize = 0;
    while i < n
        invariant
            i <= n,
            n == row@.len(),
            r@ == spec_replace(row@.take(i as int), hb),
        decreases n - i,
    {
        let c = row.get_char(i);
        if c == hb {
            r.append(" ");
            proof {
                reveal_strlit(" ");
                assert(" "@ =~= seq![' ']);
            }
        } else {
            let piece = row.substring_char(i, i + 1);
            proof {
                assert(piece@ =~= seq![c]);
            }
            r.append(piece);
        }
        proof {
            assert(r@ =~= spec_replace(row@.take(i + 1), hb));
        }
        i = i + 1;
    }
    proof {
        assert(row@.take(n as int) =~= row@);
    }
    r
}

/// Every character of the replaced row comes from the row or is a space, so a
/// newline-free row stays newline-free.
pub proof fn lemma_replace_no_newline(s: Seq<char>, hb: char)
    requires
        !s.contains('\n'),
    ensures
        !spec_replace(s, hb).contains('\n'),
{
    if spec_replace(s, hb).contains('\n') {
        let i = choose|i: int|
            0 <= i < spec_replace(s, hb).len() && spec_replace(s, hb)[i] == '\n';
        assert(s[i] == '\n');
        assert(s.contains('\n'));
    }
}

/// A stripped row of a newline-free line is newline-free.
pub proof fn lemma_strip_row_no_newline(row: Seq<char>, is_last: bool, hb: char)
    requires
        !row.contains('\n'),
    ensures
        !spec_strip_row(row, is_last, hb).contains('\n'),
{
    let d: int = if is_last {
        2
    } else {
        1
    };
    let keep: int = if row.len() >= d {
        row.len() - d
    } else {
        0
    };
    assert(!row.take(keep).contains('\n')) by {
        if row.take(keep).contains('\n') {
            let i = choose|i: int| 0 <= i < keep && row.take(keep)[i] == '\n';
            assert(row[i] == '\n');
        }
    }
    lemma_replace_no_newline(row.take(keep), hb);
}

} // verus!
