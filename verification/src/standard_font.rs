//! The bundled reference font: a compact complete FIGlet font holding the
//! 95 ASCII glyphs and the seven German glyphs, each three rows tall.

use vstd::prelude::*;

verus! {

/// The text of the bundled reference font.
pub const STANDARD_FONT: &'static str = "flf2a$ 3 2 4 -1 2\n\
A compact reference font: every glyph frames its character in a box.\n\
Codes 32-126 and the seven German codes are provided.\n\
+-+@\n\
|$|@\n\
+-+@@\n\
+-+@\n\
|!|@\n\
+-+@@\n\
+-+@\n\
|\"|@\n\
+-+@@\n\
+-+@\n\
|#|@\n\
+-+@@\n\
+-+@\n\
|$|@\n\
+-+@@\n\
+-+@\n\
|%|@\n\
+-+@@\n\
+-+@\n\
|&|@\n\
+-+@@\n\
+-+@\n\
|'|@\n\
+-+@@\n\
+-+@\n\
|(|@\n\
+-+@@\n\
+-+@\n\
|)|@\n\
+-+@@\n\
+-+@\n\
|*|@\n\
+-+@@\n\
+-+@\n\
|+|@\n\
+-+@@\n\
+-+@\n\
|,|@\n\
+-+@@\n\
+-+@\n\
|-|@\n\
+-+@@\n\
+-+@\n\
|.|@\n\
+-+@@\n\
+-+@\n\
|/|@\n\
+-+@@\n\
+-+@\n\
|0|@\n\
+-+@@\n\
+-+@\n\
|1|@\n\
+-+@@\n\
+-+@\n\
|2|@\n\
+-+@@\n\
+-+@\n\
|3|@\n\
+-+@@\n\
+-+@\n\
|4|@\n\
+-+@@\n\
+-+@\n\
|5|@\n\
+-+@@\n\
+-+@\n\
|6|@\n\
+-+@@\n\
+-+@\n\
|7|@\n\
+-+@@\n\
+-+@\n\
|8|@\n\
+-+@@\n\
+-+@\n\
|9|@\n\
+-+@@\n\
+-+@\n\
|:|@\n\
+-+@@\n\
+-+@\n\
|;|@\n\
+-+@@\n\
+-+@\n\
|<|@\n\
+-+@@\n\
+-+@\n\
|=|@\n\
+-+@@\n\
+-+@\n\
|>|@\n\
+-+@@\n\
+-+@\n\
|?|@\n\
+-+@@\n\
+-+@\n\
|@|@\n\
+-+@@\n\
+-+@\n\
|A|@\n\
+-+@@\n\
+-+@\n\
|B|@\n\
+-+@@\n\
+-+@\n\
|C|@\n\
+-+@@\n\
+-+@\n\
|D|@\n\
+-+@@\n\
+-+@\n\
|E|@\n\
+-+@@\n\
+-+@\n\
|F|@\n\
+-+@@\n\
+-+@\n\
|G|@\n\
+-+@@\n\
+-+@\n\
|H|@\n\
+-+@@\n\
+-+@\n\
|I|@\n\
+-+@@\n\
+-+@\n\
|J|@\n\
+-+@@\n\
+-+@\n\
|K|@\n\
+-+@@\n\
+-+@\n\
|L|@\n\
+-+@@\n\
+-+@\n\
|M|@\n\
+-+@@\n\
+-+@\n\
|N|@\n\
+-+@@\n\
+-+@\n\
|O|@\n\
+-+@@\n\
+-+@\n\
|P|@\n\
+-+@@\n\
+-+@\n\
|Q|@\n\
+-+@@\n\
+-+@\n\
|R|@\n\
+-+@@\n\
+-+@\n\
|S|@\n\
+-+@@\n\
+-+@\n\
|T|@\n\
+-+@@\n\
+-+@\n\
|U|@\n\
+-+@@\n\
+-+@\n\
|V|@\n\
+-+@@\n\
+-+@\n\
|W|@\n\
+-+@@\n\
+-+@\n\
|X|@\n\
+-+@@\n\
+-+@\n\
|Y|@\n\
+-+@@\n\
+-+@\n\
|Z|@\n\
+-+@@\n\
+-+@\n\
|[|@\n\
+-+@@\n\
+-+@\n\
|\\|@\n\
+-+@@\n\
+-+@\n\
|]|@\n\
+-+@@\n\
+-+@\n\
|^|@\n\
+-+@@\n\
+-+@\n\
|_|@\n\
+-+@@\n\
+-+@\n\
|`|@\n\
+-+@@\n\
+-+@\n\
|a|@\n\
+-+@@\n\
+-+@\n\
|b|@\n\
+-+@@\n\
+-+@\n\
|c|@\n\
+-+@@\n\
+-+@\n\
|d|@\n\
+-+@@\n\
+-+@\n\
|e|@\n\
+-+@@\n\
+-+@\n\
|f|@\n\
+-+@@\n\
+-+@\n\
|g|@\n\
+-+@@\n\
+-+@\n\
|h|@\n\
+-+@@\n\
+-+@\n\
|i|@\n\
+-+@@\n\
+-+@\n\
|j|@\n\
+-+@@\n\
+-+@\n\
|k|@\n\
+-+@@\n\
+-+@\n\
|l|@\n\
+-+@@\n\
+-+@\n\
|m|@\n\
+-+@@\n\
+-+@\n\
|n|@\n\
+-+@@\n\
+-+@\n\
|o|@\n\
+-+@@\n\
+-+@\n\
|p|@\n\
+-+@@\n\
+-+@\n\
|q|@\n\
+-+@@\n\
+-+@\n\
|r|@\n\
+-+@@\n\
+-+@\n\
|s|@\n\
+-+@@\n\
+-+@\n\
|t|@\n\
+-+@@\n\
+-+@\n\
|u|@\n\
+-+@@\n\
+-+@\n\
|v|@\n\
+-+@@\n\
+-+@\n\
|w|@\n\
+-+@@\n\
+-+@\n\
|x|@\n\
+-+@@\n\
+-+@\n\
|y|@\n\
+-+@@\n\
+-+@\n\
|z|@\n\
+-+@@\n\
+-+@\n\
|{|@\n\
+-+@@\n\
+-+@\n\
|||@\n\
+-+@@\n\
+-+@\n\
|}|@\n\
+-+@@\n\
+-+@\n\
|~|@\n\
+-+@@\n\
+-+@\n\
|A|@\n\
+-+@@\n\
+-+@\n\
|O|@\n\
+-+@@\n\
+-+@\n\
|U|@\n\
+-+@@\n\
+-+@\n\
|a|@\n\
+-+@@\n\
+-+@\n\
|o|@\n\
+-+@@\n\
+-+@\n\
|u|@\n\
+-+@@\n\
+-+@\n\
|s|@\n\
+-+@@\n\
";

} // verus!
