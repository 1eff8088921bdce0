//! The first line of a FIGlet font: structured metadata about the glyphs
//! that follow.

use vstd::prelude::*;
use crate::text::{
    spec_split, spec_trim, spec_parse_i32, split_spaces, trim, parse_i32, lemma_split_len,
};

verus! {

/// Mathematical content of a [`HeaderLine`].
pub ghost struct HeaderModel {
    pub header_line: Seq<char>,
    pub signature: Seq<char>,
    pub hardblank: char,
    pub height: i32,
    pub baseline: i32,
    pub max_length: i32,
    pub old_layout: i32,
    pub comment_lines: i32,
    pub print_direction: Option<i32>,
    pub full_layout: Option<i32>,
    pub codetag_count: Option<i32>,
}

/// The first line of a FIGlet font, holding the required metadata fields and
/// the three optional ones.
pub struct HeaderLine {
    pub header_line: String,
    pub signature: String,
    pub hardblank: char,
    pub height: i32,
    pub baseline: i32,
    pub max_length: i32,
    pub old_layout: i32,
    pub comment_lines: i32,
    pub print_direction: Option<i32>,
    pub full_layout: Option<i32>,
    pub codetag_count: Option<i32>,
}

impl View for HeaderLine {
    type V = HeaderModel;

    open spec fn view(&self) -> HeaderModel {
        HeaderModel {
            header_line: self.header_line@,
            signature: self.signature@,
            hardblank: self.hardblank,
            height: self.height,
            baseline: self.baseline,
            max_length: self.max_length,
            old_layout: self.old_layout,
            comment_lines: self.comment_lines,
            print_direction: self.print_direction,
            full_layout: self.full_layout,
            codetag_count: self.codetag_count,
        }
    }
}

/// The optional field at token `idx`: a best-effort parse, absent rather than
/// failing when the token is missing or does not read as an integer.
pub open spec fn spec_opt_field(tokens: Seq<Seq<char>>, idx: int) -> Option<i32> {
    if idx < tokens.len() {
        spec_parse_i32(tokens[idx])
    } else {
        None
    }
}

/// The header a font's first line describes: the line is trimmed and split on
/// single spaces; the first token carries the signature and, as its last
/// character, the hardblank; tokens 1 to 5 are the five required integers;
/// tokens 6 to 8 are optional. `None` where fewer than six tokens are present,
/// the first token has fewer than six characters, or a required integer does
/// not parse.
pub open spec fn spec_header(line: Seq<char>) -> Option<HeaderModel> {
    let tokens = spec_split(spec_trim(line), ' ');
    if tokens.len() < 6 {
        None
    } else if tokens[0].len() < 6 {
        None
    } else {
        let t0 = tokens[0];
        match (
            spec_parse_i32(tokens[1]),
            spec_parse_i32(tokens[2]),
            spec_parse_i32(tokens[3]),
            spec_parse_i32(tokens[4]),
            spec_parse_i32(tokens[5]),
        ) {
            (
                Some(height),
                Some(baseline),
                Some(max_length),
                Some(old_layout),
                Some(comment_lines),
            ) => Some(
                HeaderModel {
                    header_line: line,
                    signature: t0.take(t0.len() - 1),
                    hardblank: t0.last(),
                    height,
                    baseline,
                    max_length,
                    old_layout,
                    comment_lines,
                    print_direction: spec_opt_field(tokens, 6),
                    full_layout: spec_opt_field(tokens, 7),
                    codetag_count: spec_opt_field(tokens, 8),
                },
            ),
            _ => None,
        }
    }
}

impl HeaderLine {
    /// Splits the signature-with-hardblank token: all but the last character
    /// is the signature, the last character the hardblank; a token of fewer
    /// than six characters is malformed.
    pub fn extract_signature_with_hardblank(signature_with_hardblank: &str) -> (r: Result<
        (String, char),
        String,
    >)
        ensures
            match r {
                Ok(p) => {
                    let t = signature_with_hardblank@;
                    t.len() >= 6 && p.0@ == t.take(t.len() - 1) && p.1 == t.last()
                },
                Err(_) => signature_with_hardblank@.len() < 6,
            },
    {
        let n = signature_with_hardblank.unicode_len();
        if n < 6 {
            Err("can't get signature with hardblank from first line of font".to_owned())
        } else {
            let signature = signature_with_hardblank.substring_char(0, n - 1).to_owned();
            let hardblank = signature_with_hardblank.get_char(n - 1);
            proof {
                assert(signature_with_hardblank@.subrange(0, n - 1)
                    =~= signature_with_hardblank@.take(n - 1));
            }
            Ok((signature, hardblank))
        }
    }

    /// Reads the required integer field at token `index`; missing or
    /// unparsable is a format error.
    pub fn extract_required_info(infos: &Vec<String>, index: usize, _field: &str) -> (r: Result<
        i32,
        String,
    >)
        ensures
            match r {
                Ok(v) => index < infos@.len() && spec_parse_i32(infos.deep_view()[index as int])
                    == Some(v),
                Err(_) => !(index < infos@.len() && spec_parse_i32(
                    infos.deep_view()[index as int],
                ) is Some),
            },
    {
        if index >= infos.len() {
            return Err("can't get required field from header line".to_owned());
        }
        match parse_i32(infos[index].as_str()) {
            Some(v) => Ok(v),
            None => Err("can't parse required field of header line to i32".to_owned()),
        }
    }

    /// Reads the optional integer field at token `index`: absent when the
    /// token is missing or does not parse, never an error.
    pub fn extract_optional_info(infos: &Vec<String>, index: usize, _field: &str) -> (r: Option<
        i32,
    >)
        ensures
            r == spec_opt_field(infos.deep_view(), index as int),
    {
        if index < infos.len() {
            parse_i32(infos[index].as_str())
        } else {
            None
        }
    }

    /// Parses a font's first line into the structured header.
    pub fn parse_line(header_line: &str) -> (r: Result<HeaderLine, String>)
        ensures
            match r {
                Ok(h) => spec_header(header_line@) == Some(h@),
                Err(_) => spec_header(header_line@) is None,
            },
    {
        let trimmed = trim(header_line);
        let infos = split_spaces(trimmed);
        proof {
            lemma_split_len(trimmed@, ' ');
        }
        if infos.len() < 6 {
            return Err("headerline is illegal".to_owned());
        }
        let signature_with_hardblank = match Self::extract_signature_with_hardblank(
            infos[0].as_str(),
        ) {
            Ok(p) => p,
            Err(e) => return Err(e),
        };
        let height = match Self::extract_required_info(&infos, 1, "height") {
            Ok(v) => v,
            Err(e) => return Err(e),
        };
        let baseline = match Self::extract_required_info(&infos, 2, "baseline") {
            Ok(v) => v,
            Err(e) => return Err(e),
        };
        let max_length = match Self::extract_required_info(&infos, 3, "max length") {
            Ok(v) => v,
            Err(e) => return Err(e),
        };
        let old_layout = match Self::extract_required_info(&infos, 4, "old layout") {
            Ok(v) => v,
            Err(e) => return Err(e),
        };
        let comment_lines = match Self::extract_required_info(&infos, 5, "comment lines") {
            Ok(v) => v,
            Err(e) => return Err(e),
        };
        let print_direction = Self::extract_optional_info(&infos, 6, "print direction");
        let full_layout = Self::extract_optional_info(&infos, 7, "full layout");
        let codetag_count = Self::extract_optional_info(&infos, 8, "codetag count");
        Ok(
            HeaderLine {
                header_line: header_line.to_owned(),
                signature: signature_with_hardblank.0,
                hardblank: signature_with_hardblank.1,
                height,
                baseline,
                max_length,
                old_layout,
                comment_lines,
                print_direction,
                full_layout,
                codetag_count,
            },
        )
    }
}

} // verus!
