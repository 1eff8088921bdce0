//! The font itself: parsing a complete FIGlet font text into the header, the
//! comment block and the code-point-to-glyph table, and converting messages
//! into figures against that table.

use std::collections::HashMap;
use vstd::prelude::*;
use crate::glyph::{
    FIGcharacter, GlyphModel, spec_glyph, spec_glyph_rows, spec_strip_row, replace_hardblank,
    lemma_strip_row_no_newline,
};
use crate::figure::{FIGure, glyph_views};
use crate::header::{HeaderLine, HeaderModel, spec_header};
use crate::standard_font::STANDARD_FONT;
use crate::text::{
    spec_lines, spec_join_nl, spec_trim, spec_find_space, spec_parse_u32, split_lines,
    join_range, trim, first_space_index, parse_u32_radix,
};

verus! {

broadcast use vstd::std_specs::hash::group_hash_axioms;

/// Mathematical content of a [`FIGfont`].
pub ghost struct FontModel {
    pub header_line: HeaderModel,
    pub comments: Seq<char>,
    pub fonts: Map<u32, GlyphModel>,
}

/// A FIGlet font: the header, the comment block, and the mapping from code
/// point to glyph.
pub struct FIGfont {
    pub header_line: HeaderLine,
    pub comments: String,
    pub fonts: HashMap<u32, FIGcharacter>,
}

/// The glyph table a concrete map holds, glyph by glyph.
pub open spec fn table_view(m: Map<u32, FIGcharacter>) -> Map<u32, GlyphModel> {
    Map::new(|k: u32| m.contains_key(k), |k: u32| m[k]@)
}

impl View for FIGfont {
    type V = FontModel;

    open spec fn view(&self) -> FontModel {
        FontModel {
            header_line: self.header_line@,
            comments: self.comments@,
            fonts: table_view(self.fonts@),
        }
    }
}

impl FontModel {
    /// What holds of every successfully parsed font: a positive height, a
    /// non-negative comment count, and a table of well-formed glyphs of that
    /// height.
    pub open spec fn wf(self) -> bool {
        &&& self.header_line.height >= 1
        &&& self.header_line.comment_lines >= 0
        &&& forall|code: u32|
            self.fonts.contains_key(code) ==> (#[trigger] self.fonts[code]).wf(
                self.header_line.height as int,
            )
    }
}

proof fn lemma_table_view_insert(m: Map<u32, FIGcharacter>, code: u32, v: FIGcharacter)
    ensures
        table_view(m.insert(code, v)) == table_view(m).insert(code, v@),
{
    assert(table_view(m.insert(code, v)) =~= table_view(m).insert(code, v@));
}

/// Code point of the `k`-th glyph of the required block: ASCII 32 through
/// 126, then the seven German code points in their fixed order.
pub open spec fn required_code(k: int) -> u32 {
    if k < 95 {
        (32 + k) as u32
    } else {
        deutsch_codes()[k - 95]
    }
}

pub open spec fn deutsch_codes() -> Seq<u32> {
    seq![196u32, 214u32, 220u32, 228u32, 246u32, 252u32, 223u32]
}

/// Whether `c` is one of the 102 code points the required block may write.
pub open spec fn is_required_code(c: u32) -> bool {
    (32 <= c <= 126) || deutsch_codes().contains(c)
}

proof fn lemma_required_code_is_required(k: int)
    requires
        0 <= k < 102,
    ensures
        is_required_code(required_code(k)),
{
    if k >= 95 {
        assert(deutsch_codes()[k - 95] == required_code(k));
        assert(deutsch_codes().contains(required_code(k)));
    }
}

fn required_code_at(k: usize) -> (c: u32)
    requires
        k < 102,
    ensures
        c == required_code(k as int),
{
    if k < 95 {
        32 + (k as u32)
    } else if k == 95 {
        196
    } else if k == 96 {
        214
    } else if k == 97 {
        220
    } else if k == 98 {
        228
    } else if k == 99 {
        246
    } else if k == 100 {
        252
    } else {
        223
    }
}

impl FIGfont {
    /// Reads the font's first line into the structured header.
    pub fn read_header_line(header_line: &str) -> (r: Result<HeaderLine, String>)
        ensures
            match r {
                Ok(h) => spec_header(header_line@) == Some(h@),
                Err(_) => spec_header(header_line@) is None,
            },
    {
        HeaderLine::parse_line(header_line)
    }

    /// Joins source lines 1 through `comment_count` into the comment block;
    /// fewer lines than that is a format error.
    pub fn read_comments(lines: &Vec<String>, comment_count: i32) -> (r: Result<String, String>)
        requires
            comment_count >= 0,
        ensures
            match r {
                Ok(c) => lines@.len() >= comment_count + 1 && c@ == spec_join_nl(
                    lines.deep_view().subrange(1, 1 + comment_count as int),
                ),
                Err(_) => lines@.len() < comment_count + 1,
            },
    {
        let length: u64 = lines.len() as u64;
        if length < (comment_count as u64) + 1 {
            Err("can't get comments from font".to_owned())
        } else {
            Ok(join_range(lines, 1, (comment_count as usize) + 1))
        }
    }

    /// One stripped glyph row from line `index`; an index beyond the input is
    /// a format error.
    pub fn extract_one_line(
        lines: &Vec<String>,
        index: usize,
        _height: usize,
        hardblank: char,
        is_last_index: bool,
    ) -> (r: Result<String, String>)
        ensures
            match r {
                Ok(row) => index < lines@.len() && row@ == spec_strip_row(
                    lines.deep_view()[index as int],
                    is_last_index,
                    hardblank,
                ),
                Err(_) => index >= lines@.len(),
            },
    {
        if index >= lines.len() {
            return Err("can't get line at specified index".to_owned());
        }
        let line = &lines[index];
        let n = line.as_str().unicode_len();
        let d: usize = if is_last_index {
            2
        } else {
            1
        };
        let keep: usize = if n >= d {
            n - d
        } else {
            0
        };
        let stripped = line.as_str().substring_char(0, keep);
        proof {
            assert(line@.subrange(0, keep as int) =~= line@.take(keep as int));
        }
        Ok(replace_hardblank(stripped, hardblank))
    }

    /// The glyph for `code` whose rows are the `height` lines from
    /// `start_index`; rows running past the end of the input are a format
    /// error.
    pub fn extract_one_font(
        lines: &Vec<String>,
        code: u32,
        start_index: usize,
        height: usize,
        hardblank: char,
    ) -> (r: Result<FIGcharacter, String>)
        requires
            1 <= height <= 0x7fff_ffff,
        ensures
            match r {
                Ok(c) => start_index + height <= lines@.len() && c@ == spec_glyph(
                    lines.deep_view(),
                    code,
                    start_index as int,
                    height as int,
                    hardblank,
                ),
                Err(_) => start_index + height > lines@.len(),
            },
    {
        let ghost rows = spec_glyph_rows(
            lines.deep_view(),
            start_index as int,
            height as int,
            hardblank,
        );
        let n_lines = lines.len();
        if start_index >= n_lines || height > n_lines - start_index {
            return Err("can't get line at specified index".to_owned());
        }
        let mut characters: Vec<String> = Vec::new();
        let mut i: usize = 0;
        proof {
            assert(characters.deep_view() =~= rows.take(0));
        }
        while i < height
            invariant
                i <= height,
                1 <= height <= 0x7fff_ffff,
                n_lines == lines@.len(),
                start_index + height <= n_lines,
                rows == spec_glyph_rows(
                    lines.deep_view(),
                    start_index as int,
                    height as int,
                    hardblank,
                ),
                characters.deep_view() == rows.take(i as int),
            decreases height - i,
        {
            let index = start_index + i;
            let is_last_index = i == height - 1;
            let one_line_character = match Self::extract_one_line(
                lines,
                index,
                height,
                hardblank,
                is_last_index,
            ) {
                Ok(row) => row,
                Err(e) => {
                    proof {
                        assert(false);
                    }
                    return Err(e);
                },
            };
            let ghost prev = characters;
            characters.push(one_line_character);
            proof {
                crate::text::lemma_deep_view_push(characters, prev, one_line_character);
                assert(characters.deep_view() =~= rows.take(i + 1));
            }
            i = i + 1;
        }
        proof {
            assert(rows.take(height as int) =~= rows);
        }
        let width64: u64 = (characters[0].as_str().unicode_len() as u64) % 0x1_0000_0000u64;
        let width: u32 = width64 as u32;
        let height32: u32 = height as u32;
        let c = FIGcharacter { code, characters, width, height: height32 };
        proof {
            assert(c@.rows == rows);
            assert(c@ == spec_glyph(
                lines.deep_view(),
                code,
                start_index as int,
                height as int,
                hardblank,
            ));
        }
        Ok(c)
    }

    /// Writes the required block into `map`: 102 glyphs, one per
    /// `required_code`, glyph `k` starting at line `off + k*height`. A glyph
    /// whose start line is at or past the end of the input stops the pass
    /// silently; one whose rows run past the end is a format error. On every
    /// path, only required code points are written: every other entry of the
    /// map is exactly what it was.
    pub fn read_required_font(
        lines: &Vec<String>,
        headerline: &HeaderLine,
        map: &mut HashMap<u32, FIGcharacter>,
    ) -> (r: Result<(), String>)
        requires
            1 <= headerline.height,
            0 <= headerline.comment_lines,
        ensures
            forall|c: u32|
                #![auto]
                !is_required_code(c) ==> (final(map)@.contains_key(c) == old(
                    map,
                )@.contains_key(c) && (final(map)@.contains_key(c) ==> final(map)@[c] == old(
                    map,
                )@[c])),
            match r {
                Ok(_) => Some(table_view(final(map)@)) == spec_required_pass(
                    lines.deep_view(),
                    1 + headerline.comment_lines as int,
                    headerline.height as int,
                    headerline.hardblank,
                    table_view(old(map)@),
                    0,
                ),
                Err(_) => spec_required_pass(
                    lines.deep_view(),
                    1 + headerline.comment_lines as int,
                    headerline.height as int,
                    headerline.hardblank,
                    table_view(old(map)@),
                    0,
                ) is None,
            },
    {
        let ghost dv = lines.deep_view();
        let ghost off = 1 + headerline.comment_lines as int;
        let ghost h = headerline.height as int;
        let ghost hb = headerline.hardblank;
        let ghost m0 = table_view(old(map)@);
        let offset64: u64 = 1 + (headerline.comment_lines as u64);
        let height64: u64 = headerline.height as u64;
        let size = lines.len();
        proof {
            assert(dv.len() == lines@.len());
        }
        let mut k: usize = 0;
        while k < 102
            invariant
                k <= 102,
                dv == lines.deep_view(),
                size == lines@.len(),
                dv.len() == size,
                off == 1 + headerline.comment_lines as int,
                h == headerline.height as int,
                1 <= h <= 0x7fff_ffff,
                hb == headerline.hardblank,
                offset64 == off,
                height64 == h,
                m0 == table_view(old(map)@),
                forall|c: u32|
                    #![auto]
                    !is_required_code(c) ==> (map@.contains_key(c) == old(map)@.contains_key(c)
                        && (map@.contains_key(c) ==> map@[c] == old(map)@[c])),
                spec_required_pass(dv, off, h, hb, m0, 0) == spec_required_pass(
                    dv,
                    off,
                    h,
                    hb,
                    table_view(map@),
                    k as int,
                ),
            decreases 102 - k,
        {
            proof {
                assert((k as u64) * height64 <= 102 * 0x7fff_ffffu64) by (nonlinear_arith)
                    requires
                        k as u64 <= 102,
                        height64 <= 0x7fff_ffffu64,
                ;
            }
            let start64: u64 = offset64 + (k as u64) * height64;
            if start64 >= size as u64 {
                proof {
                    let cur = table_view(map@);
                    assert(off + (k as int) * h >= dv.len());
                    assert(spec_required_pass(dv, off, h, hb, cur, k as int) == Some(cur));
                }
                return Ok(());
            }
            let start = start64 as usize;
            let code = required_code_at(k);
            let font = match Self::extract_one_font(
                lines,
                code,
                start,
                headerline.height as usize,
                headerline.hardblank,
            ) {
                Ok(f) => f,
                Err(e) => {
                    proof {
                        let cur = table_view(map@);
                        assert(off + (k as int) * h < dv.len());
                        assert(off + (k as int) * h + h > dv.len());
                        assert(spec_required_pass(dv, off, h, hb, cur, k as int) is None);
                    }
                    return Err(e);
                },
            };
            let ghost prev_map = map@;
            map.insert(code, font);
            proof {
                lemma_table_view_insert(prev_map, code, font);
                lemma_required_code_is_required(k as int);
                assert(spec_required_pass(dv, off, h, hb, table_view(prev_map), k as int)
                    == spec_required_pass(dv, off, h, hb, table_view(map@), k as int + 1));
            }
            k = k + 1;
        }
        Ok(())
    }

    /// The code point on a code-tag line: the first whitespace-delimited
    /// token, read as hexadecimal after a `0x`/`0X` prefix, octal after a
    /// single leading `0`, decimal otherwise.
    pub fn extract_codetag_font_code(lines: &Vec<String>, index: usize) -> (r: Result<
        u32,
        String,
    >)
        ensures
            match r {
                Ok(code) => index < lines@.len() && spec_codetag_code(
                    lines.deep_view()[index as int],
                ) == Some(code),
                Err(_) => !(index < lines@.len() && spec_codetag_code(
                    lines.deep_view()[index as int],
                ) is Some),
            },
    {
        if index >= lines.len() {
            return Err("get codetag line error".to_owned());
        }
        let line = &lines[index];
        let trimmed = trim(line.as_str());
        let k = first_space_index(trimmed);
        let code_str = trimmed.substring_char(0, k);
        proof {
            assert(trimmed@.subrange(0, k as int) =~= trimmed@.take(spec_find_space(trimmed@)));
        }
        let n = code_str.unicode_len();
        let parsed: Option<u32> = if n >= 2 && code_str.get_char(0) == '0' && (code_str.get_char(1)
            == 'x' || code_str.get_char(1) == 'X') {
            let rest = code_str.substring_char(2, n);
            proof {
                assert(code_str@.subrange(2, n as int) =~= code_str@.skip(2));
            }
            parse_u32_radix(rest, 16)
        } else if n >= 1 && code_str.get_char(0) == '0' {
            let rest = code_str.substring_char(1, n);
            proof {
                assert(code_str@.subrange(1, n as int) =~= code_str@.skip(1));
            }
            parse_u32_radix(rest, 8)
        } else {
            parse_u32_radix(code_str, 10)
        };
        match parsed {
            Some(code) => Ok(code),
            None => Err("extract code for codetag font error".to_owned()),
        }
    }

    /// Writes the code-tagged block into `map`: group `i` of `size` holds a
    /// code line at `off + i*(height+1)` and the glyph's rows right after it.
    /// Divisibility is checked before anything is written, so a block that is
    /// no exact multiple of `height + 1` lines leaves the map untouched.
    pub fn read_codetag_font(
        lines: &Vec<String>,
        headerline: &HeaderLine,
        map: &mut HashMap<u32, FIGcharacter>,
    ) -> (r: Result<(), String>)
        requires
            1 <= headerline.height,
            0 <= headerline.comment_lines,
        ensures
            ({
                let off = 1 + headerline.comment_lines as int + 102 * headerline.height as int;
                let remaining: int = if lines@.len() >= off {
                    lines@.len() - off
                } else {
                    0
                };
                remaining % (headerline.height as int + 1) != 0
            }) ==> final(map)@ == old(map)@,
            match r {
                Ok(_) => Some(table_view(final(map)@)) == spec_codetag_result(
                    lines.deep_view(),
                    headerline.height as int,
                    headerline.comment_lines as int,
                    headerline.hardblank,
                    table_view(old(map)@),
                ),
                Err(_) => spec_codetag_result(
                    lines.deep_view(),
                    headerline.height as int,
                    headerline.comment_lines as int,
                    headerline.hardblank,
                    table_view(old(map)@),
                ) is None,
            },
    {
        let ghost dv = lines.deep_view();
        let ghost h = headerline.height as int;
        let ghost hb = headerline.hardblank;
        let ghost m0 = table_view(old(map)@);
        let ghost off = 1 + headerline.comment_lines as int + 102 * h;
        let offset64: u64 = 1 + (headerline.comment_lines as u64) + 102 * (headerline.height
            as u64);
        let len64: u64 = lines.len() as u64;
        let codetag_height64: u64 = (headerline.height as u64) + 1;
        let remaining64: u64 = if len64 >= offset64 {
            len64 - offset64
        } else {
            0
        };
        proof {
            assert(dv.len() == lines@.len());
        }
        if remaining64 % codetag_height64 != 0 {
            proof {
                assert(spec_codetag_result(dv, h, headerline.comment_lines as int, hb, m0)
                    is None);
            }
            return Err("codetag font is illegal.".to_owned());
        }
        let size64: u64 = remaining64 / codetag_height64;
        let ghost size = remaining64 as int / (h + 1);
        proof {
            vstd::arithmetic::div_mod::lemma_fundamental_div_mod(
                remaining64 as int,
                (h + 1) as int,
            );
            assert(remaining64 as int == (h + 1) * size);
            assert(size64 as int <= remaining64 as int) by (nonlinear_arith)
                requires
                    size64 as int == remaining64 as int / ((h + 1) as int),
                    h + 1 >= 1,
                    remaining64 >= 0,
            ;
        }
        let size_us: usize = size64 as usize;
        proof {
            assert(dv.len() == lines@.len());
        }
        let mut i: usize = 0;
        while i < size_us
            invariant
                i <= size_us,
                dv == lines.deep_view(),
                len64 == lines@.len(),
                len64 <= usize::MAX,
                dv.len() == len64,
                h == headerline.height as int,
                1 <= h <= 0x7fff_ffff,
                hb == headerline.hardblank,
                off == 1 + headerline.comment_lines as int + 102 * h,
                offset64 == off,
                codetag_height64 == h + 1,
                m0 == table_view(old(map)@),
                size_us as int == size,
                size * (h + 1) == if len64 >= offset64 {
                    len64 - offset64
                } else {
                    0
                },
                size == (if len64 >= offset64 {
                    len64 - offset64
                } else {
                    0
                }) / (h + 1),
                (if len64 >= offset64 {
                    len64 - offset64
                } else {
                    0
                }) % (h + 1) == 0,
                spec_codetag_pass(dv, off, h, hb, m0, 0, size) == spec_codetag_pass(
                    dv,
                    off,
                    h,
                    hb,
                    table_view(map@),
                    i as int,
                    size,
                ),
            decreases size_us - i,
        {
            proof {
                assert(len64 >= offset64) by {
                    if len64 < offset64 {
                        assert(size * (h + 1) >= 1 * (h + 1)) by (nonlinear_arith)
                            requires
                                size >= 1,
                                h + 1 >= 0,
                        ;
                    }
                }
                assert((i as int + 1) * (h + 1) <= size * (h + 1)) by (nonlinear_arith)
                    requires
                        i as int + 1 <= size,
                        h + 1 >= 1,
                ;
                assert((i as int) * (h + 1) + (h + 1) == (i as int + 1) * (h + 1))
                    by (nonlinear_arith);
                assert(off + (i as int) * (h + 1) + (h + 1) <= len64);
            }
            let start64: u64 = offset64 + (i as u64) * codetag_height64;
            let ghost startg = off + (i as int) * (h + 1);
            proof {
                assert(start64 == startg);
                assert(start64 < len64);
            }
            let start = start64 as usize;
            proof {
                assert(start == startg);
                assert(startg + h + 1 <= dv.len());
            }
            let code = match Self::extract_codetag_font_code(lines, start) {
                Ok(c) => c,
                Err(e) => {
                    proof {
                        let cur = table_view(map@);
                        assert(spec_codetag_code(dv[startg]) is None);
                        assert(spec_codetag_pass(dv, off, h, hb, cur, i as int, size) is None);
                    }
                    return Err(e);
                },
            };
            let font = match Self::extract_one_font(
                lines,
                code,
                start + 1,
                headerline.height as usize,
                headerline.hardblank,
            ) {
                Ok(f) => f,
                Err(e) => {
                    proof {
                        assert(false);
                    }
                    return Err(e);
                },
            };
            let ghost prev_map = map@;
            map.insert(code, font);
            proof {
                lemma_table_view_insert(prev_map, code, font);
                assert(spec_codetag_pass(dv, off, h, hb, table_view(prev_map), i as int, size)
                    == spec_codetag_pass(dv, off, h, hb, table_view(map@), i as int + 1, size));
            }
            i = i + 1;
        }
        proof {
            let cur = table_view(map@);
            assert(spec_codetag_pass(dv, off, h, hb, cur, size, size) == Some(cur));
            assert(spec_codetag_result(dv, h, headerline.comment_lines as int, hb, m0) == Some(
                cur,
            ));
        }
        Ok(())
    }

    /// Builds the whole glyph table: the required block, then the
    /// code-tagged block, the latest write winning on a shared code point.
    pub fn read_fonts(lines: &Vec<String>, headerline: &HeaderLine) -> (r: Result<
        HashMap<u32, FIGcharacter>,
        String,
    >)
        requires
            1 <= headerline.height,
            0 <= headerline.comment_lines,
        ensures
            match r {
                Ok(m) => Some(table_view(m@)) == spec_read_fonts(lines.deep_view(), headerline@),
                Err(_) => spec_read_fonts(lines.deep_view(), headerline@) is None,
            },
    {
        let mut map: HashMap<u32, FIGcharacter> = HashMap::new();
        proof {
            assert(table_view(map@) =~= Map::<u32, GlyphModel>::empty());
        }
        match Self::read_required_font(lines, headerline, &mut map) {
            Ok(_) => (),
            Err(e) => return Err(e),
        }
        match Self::read_codetag_font(lines, headerline, &mut map) {
            Ok(_) => (),
            Err(e) => return Err(e),
        }
        Ok(map)
    }

    /// Parses a complete FIGlet font text: the header from the first line,
    /// then the comment block, then the glyph table; empty input and every
    /// layer's format error abort the parse, so a font is either fully built
    /// or not built at all.
    pub fn from_content(contents: &str) -> (r: Result<FIGfont, String>)
        ensures
            match r {
                Ok(f) => spec_parse_font(contents@) == Some(f@) && f@.wf(),
                Err(_) => spec_parse_font(contents@) is None,
            },
    {
        let lines = split_lines(contents);
        let ghost dv = lines.deep_view();
        if lines.len() == 0 {
            return Err("can not generate FIGlet font from empty string".to_owned());
        }
        let header_line = match Self::read_header_line(lines[0].as_str()) {
            Ok(h) => h,
            Err(e) => return Err(e),
        };
        if header_line.height < 1 || header_line.comment_lines < 0 {
            return Err("headerline is illegal".to_owned());
        }
        let comments = match Self::read_comments(&lines, header_line.comment_lines) {
            Ok(c) => c,
            Err(e) => return Err(e),
        };
        let fonts = match Self::read_fonts(&lines, &header_line) {
            Ok(m) => m,
            Err(e) => return Err(e),
        };
        let f = FIGfont { header_line, comments, fonts };
        proof {
            let hd = f.header_line@;
            let h = hd.height as int;
            crate::text::lemma_lines_no_newline(contents@);
            let m1 = spec_required_pass(dv, 1 + hd.comment_lines as int, h, hd.hardblank,
                Map::empty(), 0)->Some_0;
            lemma_required_pass_wf(
                dv,
                1 + hd.comment_lines as int,
                h,
                hd.hardblank,
                Map::empty(),
                0,
                m1,
            );
            let off = 1 + hd.comment_lines as int + 102 * h;
            let remaining: int = if dv.len() >= off {
                dv.len() - off
            } else {
                0
            };
            let size = remaining / (h + 1);
            vstd::arithmetic::div_mod::lemma_fundamental_div_mod(remaining, h + 1);
            assert(size <= 0 || off + size * (h + 1) <= dv.len());
            lemma_codetag_pass_wf(dv, off, h, hd.hardblank, m1, 0, size, f@.fonts);
        }
        Ok(f)
    }

    /// The bundled reference font, parsed.
    pub fn standard() -> (r: Result<FIGfont, String>)
        ensures
            match r {
                Ok(f) => spec_parse_font(STANDARD_FONT@) == Some(f@) && f@.wf(),
                Err(_) => spec_parse_font(STANDARD_FONT@) is None,
            },
    {
        let contents = STANDARD_FONT;
        FIGfont::from_content(contents)
    }

    /// The figure for `message`: in message order, the glyph of every
    /// character that has one (characters without a glyph are silently
    /// dropped), with the font's height; absent when the message is empty or
    /// no character matched. Never an error.
    pub fn convert<'a>(&'a self, message: &str) -> (r: Option<FIGure<'a>>)
        requires
            self@.wf(),
        ensures
            match r {
                Some(fig) => message@.len() > 0 && spec_convert_list(self@.fonts, message@).len()
                    > 0 && glyph_views(fig.characters@) == spec_convert_list(
                    self@.fonts,
                    message@,
                ) && fig.height == self.header_line.height as u32,
                None => message@.len() == 0 || spec_convert_list(self@.fonts, message@).len()
                    == 0,
            },
    {
        let ghost table = self@.fonts;
        if message.is_empty() {
            return None;
        }
        let n = message.unicode_len();
        let mut characters: Vec<&FIGcharacter> = Vec::new();
        let mut i: usize = 0;
        proof {
            assert(message@.take(0) =~= Seq::<char>::empty());
            assert(glyph_views(characters@) =~= Seq::<GlyphModel>::empty());
        }
        while i < n
            invariant
                i <= n,
                n == message@.len(),
                table == self@.fonts,
                glyph_views(characters@) == spec_convert_list(table, message@.take(i as int)),
            decreases n - i,
        {
            let ch = message.get_char(i);
            let code = ch as u32;
            let ghost prev = characters@;
            proof {
                assert(message@.take(i + 1).drop_last() =~= message@.take(i as int));
                assert(message@.take(i + 1).last() == message@[i as int]);
            }
            match self.fonts.get(&code) {
                Some(character) => {
                    characters.push(character);
                    proof {
                        assert(table.contains_key(code) && table[code] == character@);
                        assert(glyph_views(characters@) =~= glyph_views(prev).push(character@));
                    }
                },
                None => {
                    proof {
                        assert(!table.contains_key(code));
                    }
                },
            }
            i = i + 1;
        }
        proof {
            assert(message@.take(n as int) =~= message@);
        }
        if characters.is_empty() {
            return None;
        }
        Some(FIGure { characters, height: self.header_line.height as u32 })
    }
}

/// Every glyph a conversion selects comes from the table, so the glyphs of a
/// figure built against a well-formed font are all well-formed, and the
/// render-shape law applies to its rendering.
pub proof fn lemma_convert_list_wf(m: Map<u32, GlyphModel>, msg: Seq<char>, height: int)
    requires
        forall|c: u32| m.contains_key(c) ==> (#[trigger] m[c]).wf(height),
    ensures
        forall|k: int|
            0 <= k < spec_convert_list(m, msg).len() ==> (#[trigger] spec_convert_list(m, msg)[k]).wf(
                height,
            ),
    decreases msg.len(),
{
    if msg.len() == 0 {
    } else {
        lemma_convert_list_wf(m, msg.drop_last(), height);
        let rest = spec_convert_list(m, msg.drop_last());
        let code = msg.last() as u32;
        if m.contains_key(code) {
            assert forall|k: int| 0 <= k < spec_convert_list(m, msg).len() implies (
            #[trigger] spec_convert_list(m, msg)[k]).wf(height) by {
                if k < rest.len() {
                    assert(spec_convert_list(m, msg)[k] == rest[k]);
                } else {
                    assert(spec_convert_list(m, msg)[k] == m[code]);
                }
            }
        }
    }
}

/// A font parsed from a header that declares `comment_lines = 0` has an empty
/// comment block.
pub proof fn lemma_no_comment_lines_empty_comment(text: Seq<char>)
    requires
        spec_parse_font(text) is Some,
        spec_parse_font(text)->Some_0.header_line.comment_lines == 0,
    ensures
        spec_parse_font(text)->Some_0.comments == Seq::<char>::empty(),
{
    let lines = spec_lines(text);
    assert(lines.subrange(1, 1) =~= Seq::<Seq<char>>::empty());
}

/// In every successfully parsed font the code-tagged block is an exact
/// multiple of `height + 1` lines; a remainder makes the parse fail with a
/// format error.
pub proof fn lemma_codetag_block_multiple(text: Seq<char>)
    requires
        spec_parse_font(text) is Some,
    ensures
        ({
            let hd = spec_parse_font(text)->Some_0.header_line;
            let lines = spec_lines(text);
            let off = 1 + hd.comment_lines as int + 102 * hd.height as int;
            let remaining: int = if lines.len() >= off {
                lines.len() - off
            } else {
                0
            };
            remaining % (hd.height as int + 1) == 0
        }),
{
}

/// The glyphs a message selects: in message order, the table's glyph of every
/// character whose code point the table holds; the others are dropped.
pub open spec fn spec_convert_list(m: Map<u32, GlyphModel>, msg: Seq<char>) -> Seq<GlyphModel>
    decreases msg.len(),
{
    if msg.len() == 0 {
        Seq::empty()
    } else {
        let rest = spec_convert_list(m, msg.drop_last());
        let code = msg.last() as u32;
        if m.contains_key(code) {
            rest.push(m[code])
        } else {
            rest
        }
    }
}

/// The meaning of a complete font text. `None` is the format error: empty
/// input, a malformed header (also one whose height is less than one or whose
/// comment count is negative, which describe no table), too few comment
/// lines, a required glyph cut off by the end of the input, a code-tagged
/// block that is no exact multiple of `height + 1` lines, or an unreadable
/// code-tag code.
pub open spec fn spec_parse_font(text: Seq<char>) -> Option<FontModel> {
    let lines = spec_lines(text);
    if lines.len() == 0 {
        None
    } else {
        match spec_header(lines[0]) {
            None => None,
            Some(hd) => {
                if hd.height < 1 || hd.comment_lines < 0 {
                    None
                } else if lines.len() < hd.comment_lines + 1 {
                    None
                } else {
                    match spec_read_fonts(lines, hd) {
                        None => None,
                        Some(m) => Some(
                            FontModel {
                                header_line: hd,
                                comments: spec_join_nl(
                                    lines.subrange(1, 1 + hd.comment_lines as int),
                                ),
                                fonts: m,
                            },
                        ),
                    }
                }
            },
        }
    }
}

/// The table after the required-block pass, from glyph `k` on: glyph `k` of
/// 102 starts at line `off + k*height`; a start line at or past the end of
/// the input ends the pass with the table built so far, and rows running past
/// the end fail it.
pub open spec fn spec_required_pass(
    lines: Seq<Seq<char>>,
    off: int,
    height: int,
    hb: char,
    m: Map<u32, GlyphModel>,
    k: int,
) -> Option<Map<u32, GlyphModel>>
    decreases 102 - k,
{
    if k >= 102 {
        Some(m)
    } else {
        let start = off + k * height;
        if start >= lines.len() {
            Some(m)
        } else if start + height > lines.len() {
            None
        } else {
            spec_required_pass(
                lines,
                off,
                height,
                hb,
                m.insert(required_code(k), spec_glyph(lines, required_code(k), start, height, hb)),
                k + 1,
            )
        }
    }
}

/// The code point a code-tag line declares: the line is trimmed, its first
/// whitespace-delimited token taken, and that token read under the radix its
/// prefix selects.
pub open spec fn spec_codetag_code(line: Seq<char>) -> Option<u32> {
    let t = spec_trim(line);
    let token = t.take(spec_find_space(t));
    if token.len() >= 2 && token[0] == '0' && (token[1] == 'x' || token[1] == 'X') {
        spec_parse_u32(token.skip(2), 16)
    } else if token.len() >= 1 && token[0] == '0' {
        spec_parse_u32(token.skip(1), 8)
    } else {
        spec_parse_u32(token, 10)
    }
}

/// The table after the code-tagged pass, from group `i` of `size` on: each
/// group holds one code line at `off + i*(height+1)` and `height` glyph rows
/// after it; an unreadable code line fails the pass.
pub open spec fn spec_codetag_pass(
    lines: Seq<Seq<char>>,
    off: int,
    height: int,
    hb: char,
    m: Map<u32, GlyphModel>,
    i: int,
    size: int,
) -> Option<Map<u32, GlyphModel>>
    decreases size - i,
{
    if i >= size {
        Some(m)
    } else {
        let start = off + i * (height + 1);
        match spec_codetag_code(lines[start]) {
            None => None,
            Some(code) => spec_codetag_pass(
                lines,
                off,
                height,
                hb,
                m.insert(code, spec_glyph(lines, code, start + 1, height, hb)),
                i + 1,
                size,
            ),
        }
    }
}

/// What the code-tagged block adds to table `base`: the block begins at line
/// `1 + comment_lines + 102*height`; an input that ends at or before that
/// line has no code-tagged block; otherwise the remaining line count must be
/// an exact multiple of `height + 1`.
pub open spec fn spec_codetag_result(
    lines: Seq<Seq<char>>,
    height: int,
    comment_lines: int,
    hb: char,
    base: Map<u32, GlyphModel>,
) -> Option<Map<u32, GlyphModel>> {
    let off = 1 + comment_lines + 102 * height;
    let remaining: int = if lines.len() >= off {
        lines.len() - off
    } else {
        0
    };
    if remaining % (height + 1) != 0 {
        None
    } else {
        spec_codetag_pass(lines, off, height, hb, base, 0, remaining / (height + 1))
    }
}

/// Every glyph the required pass writes over a table of well-formed glyphs is
/// itself well-formed, because its rows are stripped from newline-free lines.
proof fn lemma_required_pass_wf(
    lines: Seq<Seq<char>>,
    off: int,
    height: int,
    hb: char,
    m: Map<u32, GlyphModel>,
    k: int,
    m2: Map<u32, GlyphModel>,
)
    requires
        1 <= height <= 0x7fff_ffff,
        0 <= off,
        0 <= k,
        forall|j: int| 0 <= j < lines.len() ==> !(#[trigger] lines[j]).contains('\n'),
        forall|c: u32| m.contains_key(c) ==> (#[trigger] m[c]).wf(height),
        spec_required_pass(lines, off, height, hb, m, k) == Some(m2),
    ensures
        forall|c: u32| m2.contains_key(c) ==> (#[trigger] m2[c]).wf(height),
    decreases 102 - k,
{
    if k >= 102 {
    } else {
        let start = off + k * height;
        assert(k * height >= 0) by (nonlinear_arith)
            requires
                k >= 0,
                height >= 1,
        ;
        if start >= lines.len() {
        } else {
            if start + height > lines.len() {
                assert(spec_required_pass(lines, off, height, hb, m, k) is None);
            }
            assert(start + height <= lines.len());
            let g = spec_glyph(lines, required_code(k), start, height, hb);
            assert(g.wf(height)) by {
                assert forall|i: int| 0 <= i < g.rows.len() implies !(
                #[trigger] g.rows[i]).contains('\n') by {
                    assert(0 <= start + i < lines.len());
                    lemma_strip_row_no_newline(lines[start + i], i == height - 1, hb);
                }
            }
            lemma_required_pass_wf(
                lines,
                off,
                height,
                hb,
                m.insert(required_code(k), g),
                k + 1,
                m2,
            );
        }
    }
}

/// The same for the code-tagged pass, whose groups all lie within the input.
proof fn lemma_codetag_pass_wf(
    lines: Seq<Seq<char>>,
    off: int,
    height: int,
    hb: char,
    m: Map<u32, GlyphModel>,
    i: int,
    size: int,
    m2: Map<u32, GlyphModel>,
)
    requires
        1 <= height <= 0x7fff_ffff,
        0 <= off,
        0 <= i,
        size <= 0 || off + size * (height + 1) <= lines.len(),
        forall|j: int| 0 <= j < lines.len() ==> !(#[trigger] lines[j]).contains('\n'),
        forall|c: u32| m.contains_key(c) ==> (#[trigger] m[c]).wf(height),
        spec_codetag_pass(lines, off, height, hb, m, i, size) == Some(m2),
    ensures
        forall|c: u32| m2.contains_key(c) ==> (#[trigger] m2[c]).wf(height),
    decreases size - i,
{
    if i >= size {
    } else {
        let start = off + i * (height + 1);
        let code = spec_codetag_code(lines[start])->Some_0;
        assert(0 <= i * (height + 1) && i * (height + 1) + (height + 1) <= size * (height + 1))
            by (nonlinear_arith)
            requires
                0 <= i,
                i + 1 <= size,
                height + 1 >= 1,
        ;
        assert(start + height + 1 <= lines.len());
        let g = spec_glyph(lines, code, start + 1, height, hb);
        assert(g.wf(height)) by {
            assert forall|j: int| 0 <= j < g.rows.len() implies !(#[trigger] g.rows[j]).contains(
                '\n',
            ) by {
                assert(start + 1 + j < lines.len());
                lemma_strip_row_no_newline(lines[start + 1 + j], j == height - 1, hb);
            }
        }
        lemma_codetag_pass_wf(lines, off, height, hb, m.insert(code, g), i + 1, size, m2);
    }
}

/// The whole glyph table of a font text: the required block, then the
/// code-tagged block written over it.
pub open spec fn spec_read_fonts(lines: Seq<Seq<char>>, hd: HeaderModel) -> Option<
    Map<u32, GlyphModel>,
> {
    match spec_required_pass(
        lines,
        1 + hd.comment_lines as int,
        hd.height as int,
        hd.hardblank,
        Map::empty(),
        0,
    ) {
        None => None,
        Some(m1) => spec_codetag_result(
            lines,
            hd.height as int,
            hd.comment_lines as int,
            hd.hardblank,
            m1,
        ),
    }
}

} // verus!
