//! The figure assembled for one message: an ordered list of glyph references
//! and a shared height, rendered by row-wise concatenation.

use vstd::prelude::*;
use crate::glyph::{FIGcharacter, GlyphModel, rows_newline_free};

verus! {

/// The matched ASCII art of one message: glyph references borrowed from a
/// font's table, and the height copied from the font's header.
pub struct FIGure<'a> {
    pub characters: Vec<&'a FIGcharacter>,
    pub height: u32,
}

/// The models of a sequence of borrowed glyphs.
pub open spec fn glyph_views(gs: Seq<&FIGcharacter>) -> Seq<GlyphModel> {
    gs.map_values(|g: &FIGcharacter| g@)
}

/// Row `i` of a glyph, or nothing where the glyph has no such row.
pub open spec fn row_or_empty(rows: Seq<Seq<char>>, i: int) -> Seq<char> {
    if 0 <= i < rows.len() {
        rows[i]
    } else {
        Seq::empty()
    }
}

/// Output line `i` before its terminator: row `i` of each glyph, concatenated
/// in glyph order.
pub open spec fn spec_render_line(gs: Seq<GlyphModel>, i: int) -> Seq<char>
    decreases gs.len(),
{
    if gs.len() == 0 {
        Seq::empty()
    } else {
        spec_render_line(gs.drop_last(), i) + row_or_empty(gs.last().rows, i)
    }
}

/// The rendered text of a non-empty glyph list: lines `0` to `height - 1`,
/// each terminated by a line break.
pub open spec fn spec_render(gs: Seq<GlyphModel>, height: int) -> Seq<char>
    decreases height,
{
    if height <= 0 {
        Seq::empty()
    } else {
        spec_render(gs, height - 1) + spec_render_line(gs, height - 1) + seq!['\n']
    }
}

impl<'a> FIGure<'a> {
    /// Whether there is anything to render: at least one glyph and a positive
    /// height.
    pub fn is_not_empty(&self) -> (r: bool)
        ensures
            r == (self.characters@.len() > 0 && self.height > 0),
    {
        !self.characters.is_empty() && self.height > 0
    }

    /// The rendered text: for each of the `height` output lines, row `i` of
    /// every glyph in order (a glyph with fewer rows contributes nothing) and
    /// a line break; a figure without glyphs renders as empty text.
    pub fn render(&self) -> (r: String)
        ensures
            r@ == if self.characters@.len() > 0 {
                spec_render(glyph_views(self.characters@), self.height as int)
            } else {
                Seq::<char>::empty()
            },
    {
        let ghost gs = glyph_views(self.characters@);
        if !self.is_not_empty() {
            proof {
                if self.characters@.len() > 0 {
                    assert(spec_render(gs, self.height as int) =~= Seq::<char>::empty());
                }
            }
            return String::new();
        }
        let mut rs = String::new();
        let mut i: u32 = 0;
        while i < self.height
            invariant
                i <= self.height,
                gs == glyph_views(self.characters@),
                rs@ == spec_render(gs, i as int),
            decreases self.height - i,
        {
            let mut j: usize = 0;
            let ghost line_start = rs@;
            proof {
                assert(gs.take(0) =~= Seq::<GlyphModel>::empty());
            }
            while j < self.characters.len()
                invariant
                    j <= self.characters@.len(),
                    gs == glyph_views(self.characters@),
                    rs@ == line_start + spec_render_line(gs.take(j as int), i as int),
                decreases self.characters@.len() - j,
            {
                let character: &FIGcharacter = self.characters[j];
                proof {
                    assert(gs[j as int] == character@);
                    assert(gs.take(j + 1).drop_last() =~= gs.take(j as int));
                    assert(gs.take(j + 1).last() == gs[j as int]);
                }
                if (i as usize) < character.characters.len() {
                    rs.append(character.characters[i as usize].as_str());
                    proof {
                        assert(character@.rows[i as int] == character.characters@[i as int]@);
                        assert(rs@ =~= line_start + spec_render_line(gs.take(j + 1), i as int));
                    }
                } else {
                    proof {
                        assert(row_or_empty(character@.rows, i as int) =~= Seq::<char>::empty());
                        assert(rs@ =~= line_start + spec_render_line(gs.take(j + 1), i as int));
                    }
                }
                j = j + 1;
            }
            proof {
                assert(gs.take(self.characters@.len() as int) =~= gs);
            }
            rs.append("\n");
            proof {
                reveal_strlit("\n");
                assert("\n"@ =~= seq!['\n']);
                assert(rs@ =~= spec_render(gs, i as int + 1));
            }
            i = i + 1;
        }
        rs
    }
}

/// Number of occurrences of `c` in `s`.
pub open spec fn count_char(s: Seq<char>, c: char) -> nat
    decreases s.len(),
{
    if s.len() == 0 {
        0
    } else {
        count_char(s.drop_last(), c) + if s.last() == c {
            1nat
        } else {
            0nat
        }
    }
}

proof fn lemma_count_concat(a: Seq<char>, b: Seq<char>, c: char)
    ensures
        count_char(a + b, c) == count_char(a, c) + count_char(b, c),
    decreases b.len(),
{
    if b.len() == 0 {
        assert(a + b =~= a);
    } else {
        lemma_count_concat(a, b.drop_last(), c);
        assert((a + b).drop_last() =~= a + b.drop_last());
        assert((a + b).last() == b.last());
    }
}

proof fn lemma_count_zero(s: Seq<char>, c: char)
    requires
        !s.contains(c),
    ensures
        count_char(s, c) == 0,
    decreases s.len(),
{
    if s.len() > 0 {
        assert(!s.drop_last().contains(c)) by {
            if s.drop_last().contains(c) {
                let i = choose|i: int| 0 <= i < s.drop_last().len() && s.drop_last()[i] == c;
                assert(s[i] == c);
            }
        }
        lemma_count_zero(s.drop_last(), c);
        assert(s.last() != c) by {
            if s.last() == c {
                assert(s[s.len() - 1] == c);
            }
        }
    }
}

proof fn lemma_render_line_no_newline(gs: Seq<GlyphModel>, i: int)
    requires
        forall|k: int| 0 <= k < gs.len() ==> rows_newline_free(#[trigger] gs[k]),
    ensures
        count_char(spec_render_line(gs, i), '\n') == 0,
    decreases gs.len(),
{
    if gs.len() == 0 {
    } else {
        lemma_render_line_no_newline(gs.drop_last(), i);
        let row = row_or_empty(gs.last().rows, i);
        assert(!row.contains('\n')) by {
            assert(rows_newline_free(gs[gs.len() - 1]));
            if !(0 <= i < gs.last().rows.len()) {
                if row.contains('\n') {
                    let j = choose|j: int| 0 <= j < row.len() && row[j] == '\n';
                }
            }
        }
        lemma_count_zero(row, '\n');
        lemma_count_concat(spec_render_line(gs.drop_last(), i), row, '\n');
    }
}

/// Each output line of a two-glyph figure is the two glyphs' rows for that
/// line concatenated side by side, in glyph order.
pub proof fn lemma_render_line_two_glyphs(gs: Seq<GlyphModel>, i: int)
    requires
        gs.len() == 2,
    ensures
        spec_render_line(gs, i) == row_or_empty(gs[0].rows, i) + row_or_empty(gs[1].rows, i),
{
    let first = gs.drop_last();
    assert(first.drop_last() =~= Seq::<GlyphModel>::empty());
    assert(spec_render_line(Seq::<GlyphModel>::empty(), i) == Seq::<char>::empty());
    assert(first.last() == gs[0]);
    assert(gs.last() == gs[1]);
    assert(spec_render_line(first, i) == spec_render_line(first.drop_last(), i) + row_or_empty(
        first.last().rows,
        i,
    ));
    assert(Seq::<char>::empty() + row_or_empty(gs[0].rows, i) =~= row_or_empty(gs[0].rows, i));
    assert(spec_render_line(gs, i) == spec_render_line(first, i) + row_or_empty(
        gs.last().rows,
        i,
    ));
}

/// `render` of any figure of height `height` whose glyph rows hold no line
/// break yields exactly `height` lines: the rendered text holds exactly
/// `height` line breaks, and when there is at least one line the text is
/// non-empty and ends with one, so every line is terminated.
pub proof fn lemma_render_shape(gs: Seq<GlyphModel>, height: int)
    requires
        0 <= height,
        forall|k: int| 0 <= k < gs.len() ==> rows_newline_free(#[trigger] gs[k]),
    ensures
        count_char(spec_render(gs, height), '\n') == height,
        height > 0 ==> spec_render(gs, height).len() > 0 && spec_render(gs, height).last()
            == '\n',
    decreases height,
{
    if height <= 0 {
    } else {
        lemma_render_shape(gs, height - 1);
        let prefix = spec_render(gs, height - 1);
        let line = spec_render_line(gs, height - 1);
        lemma_render_line_no_newline(gs, height - 1);
        lemma_count_concat(prefix, line, '\n');
        lemma_count_concat(prefix + line, seq!['\n'], '\n');
        let one = seq!['\n'];
        assert(one.len() == 1 && one.last() == '\n');
        assert(one.drop_last() =~= Seq::<char>::empty());
        assert(count_char(Seq::<char>::empty(), '\n') == 0);
        assert(count_char(one, '\n') == 1);
        assert(spec_render(gs, height).last() == '\n');
    }
}

} // verus!
