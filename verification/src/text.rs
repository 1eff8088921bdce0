//! Character-sequence utilities shared by the font parser: searching,
//! trimming, splitting into lines and tokens, joining, and integer parsing.

use vstd::prelude::*;

verus! {

/// Index of the first occurrence of `c` in `s`, or `s.len()` if `c` does not occur.
pub open spec fn spec_find(s: Seq<char>, c: char) -> int
    decreases s.len(),
{
    if s.len() <= 0 {
        0
    } else if s[0] == c {
        0
    } else {
        1 + spec_find(s.skip(1), c)
    }
}

pub proof fn lemma_spec_find(s: Seq<char>, c: char)
    ensures
        0 <= spec_find(s, c) <= s.len(),
        spec_find(s, c) < s.len() ==> s[spec_find(s, c)] == c,
        forall|i: int| 0 <= i < spec_find(s, c) ==> s[i] != c,
    decreases s.len(),
{
    if s.len() == 0 {
    } else if s[0] == c {
    } else {
        lemma_spec_find(s.skip(1), c);
        assert forall|i: int| 0 <= i < spec_find(s, c) implies s[i] != c by {
            if i >= 1 {
                assert(s.skip(1)[i - 1] == s[i]);
            }
        }
    }
}

/// The characters that `trim` removes: the Unicode white-space set, as
/// `char::is_whitespace` draws it.
pub open spec fn is_space_char(c: char) -> bool {
    let v = c as u32;
    (0x9 <= v && v <= 0xd) || v == 0x20 || v == 0x85 || v == 0xa0 || v == 0x1680 || (0x2000 <= v
        && v <= 0x200a) || v == 0x2028 || v == 0x2029 || v == 0x202f || v == 0x205f || v == 0x3000
}

pub open spec fn spec_trim_start(s: Seq<char>) -> Seq<char>
    decreases s.len(),
{
    if s.len() > 0 && is_space_char(s[0]) {
        spec_trim_start(s.skip(1))
    } else {
        s
    }
}

pub open spec fn spec_trim_end(s: Seq<char>) -> Seq<char>
    decreases s.len(),
{
    if s.len() > 0 && is_space_char(s.last()) {
        spec_trim_end(s.drop_last())
    } else {
        s
    }
}

/// `s` with leading and trailing ASCII whitespace removed.
pub open spec fn spec_trim(s: Seq<char>) -> Seq<char> {
    spec_trim_end(spec_trim_start(s))
}

pub fn is_space(c: char) -> (r: bool)
    ensures
        r == is_space_char(c),
{
    let v = c as u32;
    (0x9 <= v && v <= 0xd) || v == 0x20 || v == 0x85 || v == 0xa0 || v == 0x1680 || (0x2000 <= v
        && v <= 0x200a) || v == 0x2028 || v == 0x2029 || v == 0x202f || v == 0x205f || v == 0x3000
}

/// `s` without its leading and trailing ASCII whitespace.
pub fn trim(s: &str) -> (r: &str)
    ensures
        r@ == spec_trim(s@),
{
    let n = s.unicode_len();
    let mut a: usize = 0;
    assert(s@.skip(0) =~= s@);
    while a < n && is_space(s.get_char(a))
        invariant
            a <= n,
            n == s@.len(),
            spec_trim_start(s@) == spec_trim_start(s@.skip(a as int)),
        decreases n - a,
    {
        assert(s@.skip(a as int).skip(1) =~= s@.skip(a + 1));
        a = a + 1;
    }
    if a == n {
        assert(s@.skip(a as int) =~= Seq::<char>::empty());
        assert(spec_trim(s@) =~= s@.subrange(a as int, a as int));
        return s.substring_char(a, a);
    }
    assert(spec_trim_start(s@) == s@.skip(a as int));
    assert(s@.skip(a as int) =~= s@.subrange(a as int, n as int));
    let mut b: usize = n;
    while b > a && is_space(s.get_char(b - 1))
        invariant
            a <= b <= n,
            n == s@.len(),
            a < n,
            !is_space_char(s@[a as int]),
            spec_trim_end(s@.skip(a as int)) == spec_trim_end(s@.subrange(a as int, b as int)),
        decreases b,
    {
        assert(s@.subrange(a as int, b as int).last() == s@[b - 1]);
        assert(s@.subrange(a as int, b as int).drop_last() =~= s@.subrange(a as int, b - 1));
        b = b - 1;
    }
    if b == a {
        assert(s@.subrange(a as int, b as int).len() == 0);
    } else {
        assert(s@.subrange(a as int, b as int).last() == s@[b - 1]);
    }
    assert(spec_trim(s@) == s@.subrange(a as int, b as int));
    s.substring_char(a, b)
}

/// The index of the first occurrence of `c` at or after `k`, under the usual
/// "no occurrence before, one at the index unless none at all" description.
pub proof fn lemma_find_is(s: Seq<char>, c: char, k: int)
    requires
        0 <= k <= s.len(),
        forall|j: int| 0 <= j < k ==> s[j] != c,
        k < s.len() ==> s[k] == c,
    ensures
        spec_find(s, c) == k,
    decreases k,
{
    if k == 0 {
    } else {
        lemma_find_is(s.skip(1), c, k - 1);
        assert(forall|j: int| 0 <= j < k - 1 ==> s.skip(1)[j] == s[j + 1]);
        assert(k - 1 < s.skip(1).len() ==> s.skip(1)[k - 1] == s[k]);
    }
}

/// Index of the first white-space character in `s`, or `s.len()` if there is
/// none.
pub open spec fn spec_find_space(s: Seq<char>) -> int
    decreases s.len(),
{
    if s.len() <= 0 {
        0
    } else if is_space_char(s[0]) {
        0
    } else {
        1 + spec_find_space(s.skip(1))
    }
}

pub proof fn lemma_find_space_is(s: Seq<char>, k: int)
    requires
        0 <= k <= s.len(),
        forall|j: int| 0 <= j < k ==> !is_space_char(s[j]),
        k < s.len() ==> is_space_char(s[k]),
    ensures
        spec_find_space(s) == k,
    decreases k,
{
    if k == 0 {
    } else {
        lemma_find_space_is(s.skip(1), k - 1);
        assert(forall|j: int| 0 <= j < k - 1 ==> s.skip(1)[j] == s[j + 1]);
        assert(k - 1 < s.skip(1).len() ==> s.skip(1)[k - 1] == s[k]);
    }
}

/// The position of the first white-space character of `s`, or its length.
pub fn first_space_index(s: &str) -> (r: usize)
    ensures
        r as int == spec_find_space(s@),
        r <= s@.len(),
{
    let n = s.unicode_len();
    let mut i: usize = 0;
    while i < n
        invariant
            i <= n,
            n == s@.len(),
            forall|j: int| 0 <= j < i ==> !is_space_char(s@[j]),
        decreases n - i,
    {
        if is_space(s.get_char(i)) {
            proof {
                lemma_find_space_is(s@, i as int);
            }
            return i;
        }
        i = i + 1;
    }
    proof {
        lemma_find_space_is(s@, n as int);
    }
    n
}

/// A newline-terminated line loses one trailing carriage return.
pub open spec fn strip_cr(s: Seq<char>) -> Seq<char> {
    if s.len() > 0 && s.last() == '\r' {
        s.drop_last()
    } else {
        s
    }
}

/// The lines of `s`: split at `'\n'`, each terminated line losing one trailing
/// `'\r'`; a final fragment without a terminator is a line of its own, and text
/// ending in `'\n'` yields no empty final line.
pub open spec fn spec_lines(s: Seq<char>) -> Seq<Seq<char>>
    decreases s.len(),
    via spec_lines_dec
{
    if s.len() == 0 {
        Seq::empty()
    } else {
        let i = spec_find(s, '\n');
        if i == s.len() {
            seq![s]
        } else {
            seq![strip_cr(s.take(i))] + spec_lines(s.skip(i + 1))
        }
    }
}

#[via_fn]
proof fn spec_lines_dec(s: Seq<char>) {
    lemma_spec_find(s, '\n');
}

/// No line that `spec_lines` cuts holds a line break.
pub proof fn lemma_lines_no_newline(s: Seq<char>)
    ensures
        forall|k: int|
            0 <= k < spec_lines(s).len() ==> !(#[trigger] spec_lines(s)[k]).contains('\n'),
    decreases s.len(),
{
    lemma_spec_find(s, '\n');
    if s.len() == 0 {
    } else {
        let i = spec_find(s, '\n');
        if i == s.len() {
            assert forall|k: int| 0 <= k < spec_lines(s).len() implies !(
            #[trigger] spec_lines(s)[k]).contains('\n') by {
                if spec_lines(s)[k].contains('\n') {
                    let j = choose|j: int| 0 <= j < s.len() && s[j] == '\n';
                    assert(false);
                }
            }
        } else {
            lemma_lines_no_newline(s.skip(i + 1));
            let head = strip_cr(s.take(i));
            assert(!head.contains('\n')) by {
                if head.contains('\n') {
                    let j = choose|j: int| 0 <= j < head.len() && head[j] == '\n';
                    assert(s.take(i)[j] == '\n');
                    assert(s[j] == '\n');
                    assert(false);
                }
            }
            assert forall|k: int| 0 <= k < spec_lines(s).len() implies !(
            #[trigger] spec_lines(s)[k]).contains('\n') by {
                if k > 0 {
                    assert(spec_lines(s)[k] == spec_lines(s.skip(i + 1))[k - 1]);
                }
            }
        }
    }
}

/// `s` split at every occurrence of `sep`, empty pieces kept, so that the
/// result always holds at least one piece.
pub open spec fn spec_split(s: Seq<char>, sep: char) -> Seq<Seq<char>>
    decreases s.len(),
    via spec_split_dec
{
    let i = spec_find(s, sep);
    if i >= s.len() {
        seq![s]
    } else {
        seq![s.take(i)] + spec_split(s.skip(i + 1), sep)
    }
}

#[via_fn]
proof fn spec_split_dec(s: Seq<char>, sep: char) {
    lemma_spec_find(s, sep);
}

pub proof fn lemma_split_len(s: Seq<char>, sep: char)
    ensures
        spec_split(s, sep).len() >= 1,
    decreases s.len(),
{
    lemma_spec_find(s, sep);
}

pub proof fn lemma_deep_view_push(v: Vec<String>, prev: Vec<String>, x: String)
    requires
        v@ == prev@.push(x),
    ensures
        v.deep_view() =~= prev.deep_view().push(x@),
{
    assert forall|j: int| 0 <= j < v@.len() implies v.deep_view()[j] == prev.deep_view().push(
        x@,
    )[j] by {
        if j < prev@.len() {
            assert(v@[j] == prev@[j]);
        } else {
            assert(v@[j] == x);
        }
    }
}

/// The lines of `s`, as `str::lines` cuts them.
pub fn split_lines(s: &str) -> (r: Vec<String>)
    ensures
        r.deep_view() == spec_lines(s@),
{
    let n = s.unicode_len();
    let mut r: Vec<String> = Vec::new();
    let mut start: usize = 0;
    let mut i: usize = 0;
    proof {
        assert(s@.skip(0) =~= s@);
    }
    while i < n
        invariant
            start <= i <= n,
            n == s@.len(),
            r.deep_view() + spec_lines(s@.skip(start as int)) == spec_lines(s@),
            forall|j: int| start <= j < i ==> s@[j] != '\n',
        decreases n - i,
    {
        let ghost prev_dv = r.deep_view();
        let c = s.get_char(i);
        if c == '\n' {
            let end = if i > start && s.get_char(i - 1) == '\r' {
                i - 1
            } else {
                i
            };
            let line = s.substring_char(start, end).to_owned();
            proof {
                let t = s@.skip(start as int);
                assert(forall|j: int| 0 <= j < i - start ==> t[j] == s@[start + j]);
                lemma_find_is(t, '\n', i - start);
                assert(t.take(i - start) =~= s@.subrange(start as int, i as int));
                assert(t.skip(i - start + 1) =~= s@.skip(i + 1));
                if end < i {
                    assert(strip_cr(t.take(i - start)) =~= s@.subrange(start as int, end as int));
                } else {
                    if i > start {
                        assert(s@.subrange(start as int, i as int).last() == s@[i - 1]);
                    }
                    assert(strip_cr(t.take(i - start)) =~= s@.subrange(start as int, end as int));
                }
                assert(spec_lines(t) == seq![strip_cr(t.take(i - start))] + spec_lines(
                    t.skip(i - start + 1),
                ));
            }
            let ghost prev_vec = r;
            r.push(line);
            proof {
                lemma_deep_view_push(r, prev_vec, line);
                assert(r.deep_view() + spec_lines(s@.skip(i + 1)) =~= prev_dv + spec_lines(
                    s@.skip(start as int),
                ));
            }
            start = i + 1;
        }
        i = i + 1;
    }
    if start < n {
        let line = s.substring_char(start, n).to_owned();
        proof {
            let t = s@.skip(start as int);
            assert(forall|j: int| 0 <= j < n - start ==> t[j] == s@[start + j]);
            lemma_find_is(t, '\n', n - start);
            assert(t =~= s@.subrange(start as int, n as int));
        }
        let ghost prev_vec = r;
        let ghost prev_dv = r.deep_view();
        r.push(line);
        proof {
            lemma_deep_view_push(r, prev_vec, line);
            assert(r.deep_view() =~= prev_dv + spec_lines(s@.skip(start as int)));
        }
    } else {
        proof {
            assert(s@.skip(start as int).len() == 0);
            assert(r.deep_view() + spec_lines(s@.skip(start as int)) =~= r.deep_view());
        }
    }
    r
}

/// `s` split at every space, as `str::split(' ')` cuts it, empty tokens kept.
pub fn split_spaces(s: &str) -> (r: Vec<String>)
    ensures
        r.deep_view() == spec_split(s@, ' '),
        r@.len() >= 1,
{
    let n = s.unicode_len();
    let mut r: Vec<String> = Vec::new();
    let mut start: usize = 0;
    let mut i: usize = 0;
    proof {
        assert(s@.skip(0) =~= s@);
    }
    while i < n
        invariant
            start <= i <= n,
            n == s@.len(),
            r.deep_view() + spec_split(s@.skip(start as int), ' ') == spec_split(s@, ' '),
            forall|j: int| start <= j < i ==> s@[j] != ' ',
        decreases n - i,
    {
        let ghost prev_dv = r.deep_view();
        let c = s.get_char(i);
        if c == ' ' {
            let token = s.substring_char(start, i).to_owned();
            proof {
                let t = s@.skip(start as int);
                assert(forall|j: int| 0 <= j < i - start ==> t[j] == s@[start + j]);
                lemma_find_is(t, ' ', i - start);
                assert(t.take(i - start) =~= s@.subrange(start as int, i as int));
                assert(t.skip(i - start + 1) =~= s@.skip(i + 1));
            }
            let ghost prev_vec = r;
            r.push(token);
            proof {
                lemma_deep_view_push(r, prev_vec, token);
                assert(r.deep_view() + spec_split(s@.skip(i + 1), ' ') =~= prev_dv + spec_split(
                    s@.skip(start as int),
                    ' ',
                ));
            }
            start = i + 1;
        }
        i = i + 1;
    }
    let token = s.substring_char(start, n).to_owned();
    proof {
        let t = s@.skip(start as int);
        assert(forall|j: int| 0 <= j < n - start ==> t[j] == s@[start + j]);
        lemma_find_is(t, ' ', n - start);
        assert(t =~= s@.subrange(start as int, n as int));
        assert(spec_split(t, ' ') == seq![t]);
    }
    let ghost prev_vec = r;
    let ghost prev_dv = r.deep_view();
    r.push(token);
    proof {
        lemma_deep_view_push(r, prev_vec, token);
        assert(r.deep_view() =~= prev_dv + spec_split(s@.skip(start as int), ' '));
        assert(r.deep_view().len() == r@.len());
    }
    r
}

/// The pieces joined with a single `'\n'` between each two: the comment block.
pub open spec fn spec_join_nl(ls: Seq<Seq<char>>) -> Seq<char>
    decreases ls.len(),
{
    if ls.len() == 0 {
        Seq::empty()
    } else if ls.len() == 1 {
        ls[0]
    } else {
        spec_join_nl(ls.drop_last()) + seq!['\n'] + ls.last()
    }
}

/// The lines with indices in `[from, to)` joined with `'\n'`.
pub fn join_range(lines: &Vec<String>, from: usize, to: usize) -> (r: String)
    requires
        from <= to <= lines@.len(),
    ensures
        r@ == spec_join_nl(lines.deep_view().subrange(from as int, to as int)),
{
    let mut r = String::new();
    let mut k = from;
    proof {
        reveal_strlit("\n");
        assert(lines.deep_view().subrange(from as int, from as int).len() == 0);
    }
    while k < to
        invariant
            from <= k <= to <= lines@.len(),
            r@ == spec_join_nl(lines.deep_view().subrange(from as int, k as int)),
        decreases to - k,
    {
        let ghost dv = lines.deep_view();
        if k > from {
            r.append("\n");
            proof {
                reveal_strlit("\n");
                assert("\n"@ =~= seq!['\n']);
            }
        }
        r.append(lines[k].as_str());
        proof {
            assert(dv.subrange(from as int, k + 1).drop_last() =~= dv.subrange(
                from as int,
                k as int,
            ));
            assert(dv.subrange(from as int, k + 1).last() == dv[k as int]);
            assert(dv[k as int] == lines@[k as int]@);
            if k > from {
                assert(r@ =~= spec_join_nl(dv.subrange(from as int, k + 1)));
            } else {
                assert(dv.subrange(from as int, k + 1).len() == 1);
                assert(r@ =~= spec_join_nl(dv.subrange(from as int, k + 1)));
            }
        }
        k = k + 1;
    }
    r
}

/// Numeric value of an ASCII digit, for radices up to 16; 99 marks a non-digit.
pub open spec fn spec_digit(c: char) -> nat {
    let v = c as u32;
    if 48 <= v && v <= 57 {
        (v - 48) as nat
    } else if 65 <= v && v <= 70 {
        (v - 55) as nat
    } else if 97 <= v && v <= 102 {
        (v - 87) as nat
    } else {
        99
    }
}

pub open spec fn all_digits(s: Seq<char>, radix: nat) -> bool {
    forall|i: int| 0 <= i < s.len() ==> spec_digit(s[i]) < radix
}

/// The value of a digit string read most-significant first.
pub open spec fn digits_val(s: Seq<char>, radix: nat) -> nat
    decreases s.len(),
{
    if s.len() == 0 {
        0
    } else {
        digits_val(s.drop_last(), radix) * radix + spec_digit(s.last())
    }
}

/// A digit string's value only grows as digits are appended.
pub proof fn lemma_digits_val_mono(s: Seq<char>, k: int, radix: nat)
    requires
        0 <= k <= s.len(),
        radix >= 1,
    ensures
        digits_val(s.take(k), radix) <= digits_val(s, radix),
    decreases s.len(),
{
    if k == s.len() {
        assert(s.take(k) =~= s);
    } else {
        lemma_digits_val_mono(s.drop_last(), k, radix);
        assert(s.drop_last().take(k) =~= s.take(k));
        let p = digits_val(s.drop_last(), radix);
        assert(p * radix >= p * 1) by (nonlinear_arith)
            requires
                radix >= 1,
                p >= 0,
        ;
    }
}

fn digit_of(c: char) -> (d: u32)
    ensures
        d as nat == spec_digit(c),
{
    let v = c as u32;
    if 48 <= v && v <= 57 {
        v - 48
    } else if 65 <= v && v <= 70 {
        v - 55
    } else if 97 <= v && v <= 102 {
        v - 87
    } else {
        99
    }
}

/// Reads the digits of `s` from position `from` to the end: their value, when
/// every remaining character is a digit of the radix, there is at least one,
/// and the value does not exceed `max`.
fn parse_digits(s: &str, from: usize, radix: u32, max: u64) -> (r: Option<u64>)
    requires
        from <= s@.len(),
        radix == 8 || radix == 10 || radix == 16,
        max <= 0x1_0000_0000u64,
    ensures
        ({
            let body = s@.skip(from as int);
            match r {
                Some(v) => body.len() > 0 && all_digits(body, radix as nat) && digits_val(
                    body,
                    radix as nat,
                ) == v && v <= max,
                None => !(body.len() > 0 && all_digits(body, radix as nat) && digits_val(
                    body,
                    radix as nat,
                ) <= max),
            }
        }),
{
    let ghost body = s@.skip(from as int);
    proof {
        assert(forall|j: int| 0 <= j < body.len() ==> body[j] == s@[from + j]);
    }
    let n = s.unicode_len();
    if from == n {
        return None;
    }
    let mut acc: u64 = 0;
    let mut i: usize = from;
    proof {
        assert(body.take(0) =~= Seq::<char>::empty());
    }
    while i < n
        invariant
            from <= i <= n,
            n == s@.len(),
            body == s@.skip(from as int),
            forall|j: int| 0 <= j < body.len() ==> body[j] == s@[from + j],
            radix == 8 || radix == 10 || radix == 16,
            max <= 0x1_0000_0000u64,
            all_digits(body.take(i - from), radix as nat),
            acc == digits_val(body.take(i - from), radix as nat),
            acc <= max,
        decreases n - i,
    {
        let d = digit_of(s.get_char(i));
        proof {
            assert(body[i - from] == s@[i as int]);
        }
        if d >= radix {
            assert(!all_digits(body, radix as nat));
            return None;
        }
        assert(acc * (radix as u64) <= 0x1_0000_0000u64 * 16) by (nonlinear_arith)
            requires
                acc <= 0x1_0000_0000u64,
                radix <= 16,
        ;
        let next: u64 = acc * (radix as u64) + (d as u64);
        proof {
            assert(body.take(i - from + 1).drop_last() =~= body.take(i - from));
            assert(body.take(i - from + 1).last() == body[i - from]);
        }
        if next > max {
            proof {
                lemma_digits_val_mono(body, i - from + 1, radix as nat);
            }
            return None;
        }
        acc = next;
        i = i + 1;
    }
    proof {
        assert(body.take(n - from) =~= body);
    }
    Some(acc)
}

/// `u32::from_str_radix` behaviour for radix 8, 10 or 16: an optional leading
/// `'+'`, then at least one digit of the radix, value at most `u32::MAX`.
pub open spec fn spec_parse_u32(s: Seq<char>, radix: nat) -> Option<u32> {
    let body = if s.len() > 0 && s[0] == '+' {
        s.skip(1)
    } else {
        s
    };
    if body.len() > 0 && all_digits(body, radix) && digits_val(body, radix) <= u32::MAX {
        Some(digits_val(body, radix) as u32)
    } else {
        None
    }
}

/// `str::parse::<i32>` behaviour: an optional leading sign, then at least one
/// decimal digit, value within `i32` range.
pub open spec fn spec_parse_i32(s: Seq<char>) -> Option<i32> {
    let neg = s.len() > 0 && s[0] == '-';
    let body = if s.len() > 0 && (s[0] == '-' || s[0] == '+') {
        s.skip(1)
    } else {
        s
    };
    if body.len() > 0 && all_digits(body, 10) {
        let v = digits_val(body, 10) as int;
        if neg && v <= 0x8000_0000 {
            Some((-v) as i32)
        } else if !neg && v <= 0x7fff_ffff {
            Some(v as i32)
        } else {
            None
        }
    } else {
        None
    }
}

/// Reads an unsigned integer as `u32::from_str_radix` does.
pub fn parse_u32_radix(s: &str, radix: u32) -> (r: Option<u32>)
    requires
        radix == 8 || radix == 10 || radix == 16,
    ensures
        r == spec_parse_u32(s@, radix as nat),
{
    let n = s.unicode_len();
    let from: usize = if n > 0 && s.get_char(0) == '+' {
        1
    } else {
        0
    };
    proof {
        if from == 0 {
            assert(s@.skip(0) =~= s@);
        }
    }
    match parse_digits(s, from, radix, 0xffff_ffffu64) {
        Some(v) => Some(v as u32),
        None => None,
    }
}

/// Reads a signed integer as `str::parse::<i32>` does.
pub fn parse_i32(s: &str) -> (r: Option<i32>)
    ensures
        r == spec_parse_i32(s@),
{
    let n = s.unicode_len();
    proof {
        assert(s@.skip(0) =~= s@);
    }
    if n == 0 {
        return None;
    }
    let c0 = s.get_char(0);
    let neg = c0 == '-';
    let from: usize = if c0 == '-' || c0 == '+' {
        1
    } else {
        0
    };
    let max: u64 = if neg {
        0x8000_0000
    } else {
        0x7fff_ffff
    };
    match parse_digits(s, from, 10, max) {
        Some(v) => {
            if neg {
                let w = -(v as i64);
                Some(w as i32)
            } else {
                Some(v as i32)
            }
        },
        None => None,
    }
}

} // verus!
