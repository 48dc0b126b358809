//! Character-level text primitives: searching for the `": "` separator,
//! searching for a single character, and string equality, each as a spec
//! function with a verified executable counterpart.

use vstd::prelude::*;

verus! {

/// The views of a sequence of owned strings.
pub open spec fn str_views(lines: Seq<String>) -> Seq<Seq<char>> {
    lines.map_values(|l: String| l@)
}

/// The two-character separator `": "` occurs in `s` at position `i`.
pub open spec fn sep_at(s: Seq<char>, i: int) -> bool {
    0 <= i && i + 2 <= s.len() && s[i] == ':' && s[i + 1] == ' '
}

/// Position of the first occurrence of `": "` in `s` at or after `i`.
pub open spec fn find_sep_from(s: Seq<char>, i: int) -> Option<int>
    decreases s.len() - i,
{
    if i < 0 || i + 2 > s.len() {
        None
    } else if s[i] == ':' && s[i + 1] == ' ' {
        Some(i)
    } else {
        find_sep_from(s, i + 1)
    }
}

/// Position of the first occurrence of `": "` in `s`.
pub open spec fn find_sep(s: Seq<char>) -> Option<int> {
    find_sep_from(s, 0)
}

pub proof fn lemma_find_sep_from(s: Seq<char>, i: int)
    requires
        0 <= i,
    ensures
        match find_sep_from(s, i) {
            Some(j) => i <= j && sep_at(s, j) && forall|k: int| i <= k < j ==> !sep_at(s, k),
            None => forall|k: int| i <= k ==> !sep_at(s, k),
        },
    decreases s.len() - i,
{
    if i + 2 > s.len() {
    } else if s[i] == ':' && s[i + 1] == ' ' {
    } else {
        lemma_find_sep_from(s, i + 1);
    }
}

/// First position of `": "` in `s`, executed by a left-to-right scan.
pub fn find_sep_str(s: &str) -> (r: Option<usize>)
    ensures
        match r {
            Some(j) => find_sep(s@) == Some(j as int),
            None => find_sep(s@) is None,
        },
{
    let n = s.unicode_len();
    let mut i: usize = 0;
    while i < n && i + 1 < n
        invariant
            n == s@.len(),
            i <= n,
            find_sep_from(s@, 0) == find_sep_from(s@, i as int),
        decreases n - i,
    {
        if s.get_char(i) == ':' && s.get_char(i + 1) == ' ' {
            return Some(i);
        }
        i = i + 1;
    }
    None
}

/// Position of the first occurrence of `c` in `s` at or after `i`.
pub open spec fn find_char_from(s: Seq<char>, c: char, i: int) -> Option<int>
    decreases s.len() - i,
{
    if i < 0 || i >= s.len() {
        None
    } else if s[i] == c {
        Some(i)
    } else {
        find_char_from(s, c, i + 1)
    }
}

pub proof fn lemma_find_char_from(s: Seq<char>, c: char, i: int)
    requires
        0 <= i,
    ensures
        match find_char_from(s, c, i) {
            Some(j) => i <= j < s.len() && s[j] == c && forall|k: int| i <= k < j ==> s[k] != c,
            None => forall|k: int| i <= k < s.len() ==> s[k] != c,
        },
    decreases s.len() - i,
{
    if i >= s.len() {
    } else if s[i] == c {
    } else {
        lemma_find_char_from(s, c, i + 1);
    }
}

/// First position of `c` in `s` at or after `from`, executed by a scan.
pub fn find_char_str(s: &str, c: char, from: usize) -> (r: Option<usize>)
    ensures
        match r {
            Some(j) => find_char_from(s@, c, from as int) == Some(j as int),
            None => find_char_from(s@, c, from as int) is None,
        },
{
    let n = s.unicode_len();
    let mut i: usize = from;
    while i < n
        invariant
            n == s@.len(),
            from <= i,
            find_char_from(s@, c, from as int) == find_char_from(s@, c, i as int),
        decreases n - i,
    {
        if s.get_char(i) == c {
            return Some(i);
        }
        i = i + 1;
    }
    None
}

/// Character-for-character string equality.
pub fn str_eq(a: &str, b: &str) -> (r: bool)
    ensures
        r == (a@ == b@),
{
    let na = a.unicode_len();
    let nb = b.unicode_len();
    if na != nb {
        return false;
    }
    let mut i: usize = 0;
    while i < na
        invariant
            na == a@.len(),
            na == b@.len(),
            i <= na,
            forall|k: int| 0 <= k < i ==> a@[k] == b@[k],
        decreases na - i,
    {
        if a.get_char(i) != b.get_char(i) {
            proof {
                assert(a@[i as int] != b@[i as int]);
            }
            return false;
        }
        i = i + 1;
    }
    proof {
        assert(a@ =~= b@);
    }
    true
}

/// Whether a character has the Unicode `White_Space` property.
pub uninterp spec fn is_unicode_space(c: char) -> bool;

/// Relies on `char::is_whitespace`: whether a character has the Unicode
/// `White_Space` property depends on the character alone.
#[verifier::external_body]
fn char_is_space(c: char) -> (r: bool)
    ensures
        r == is_unicode_space(c),
{
    c.is_whitespace()
}

/// `s` without its leading whitespace.
pub open spec fn trim_start_of(s: Seq<char>) -> Seq<char>
    decreases s.len(),
{
    if s.len() > 0 && is_unicode_space(s[0]) {
        trim_start_of(s.subrange(1, s.len() as int))
    } else {
        s
    }
}

/// `s` without its trailing whitespace.
pub open spec fn trim_end_of(s: Seq<char>) -> Seq<char>
    decreases s.len(),
{
    if s.len() > 0 && is_unicode_space(s.last()) {
        trim_end_of(s.drop_last())
    } else {
        s
    }
}

/// `s` without leading and trailing whitespace.
pub open spec fn trim_of(s: Seq<char>) -> Seq<char> {
    trim_end_of(trim_start_of(s))
}

/// Strip surrounding whitespace, as an index scan from both ends.
pub fn trim_str(s: &str) -> (r: String)
    ensures
        r@ == trim_of(s@),
{
    let n = s.unicode_len();
    proof {
        assert(s@.subrange(0, n as int) =~= s@);
    }
    let mut lo: usize = 0;
    while lo < n && char_is_space(s.get_char(lo))
        invariant
            lo <= n,
            n == s@.len(),
            trim_start_of(s@) == trim_start_of(s@.subrange(lo as int, n as int)),
        decreases n - lo,
    {
        proof {
            assert(s@.subrange(lo as int, n as int).subrange(1, (n - lo) as int) =~= s@.subrange(
                lo as int + 1,
                n as int,
            ));
        }
        lo = lo + 1;
    }
    proof {
        assert(trim_start_of(s@) == s@.subrange(lo as int, n as int));
    }
    let mut hi: usize = n;
    while hi > lo && char_is_space(s.get_char(hi - 1))
        invariant
            lo <= hi <= n,
            n == s@.len(),
            trim_end_of(s@.subrange(lo as int, n as int)) == trim_end_of(
                s@.subrange(lo as int, hi as int),
            ),
        decreases hi,
    {
        proof {
            assert(s@.subrange(lo as int, hi as int).drop_last() =~= s@.subrange(
                lo as int,
                hi as int - 1,
            ));
        }
        hi = hi - 1;
    }
    let t = s.substring_char(lo, hi);
    proof {
        assert(trim_end_of(s@.subrange(lo as int, hi as int)) == s@.subrange(lo as int, hi as int));
    }
    t.to_owned()
}

/// An ASCII decimal digit.
pub open spec fn is_ascii_digit(c: char) -> bool {
    48 <= c as u32 <= 57
}

/// The value of one decimal digit.
pub open spec fn digit_val(c: char) -> int {
    c as u32 - 48
}

/// Every character of `s` is a decimal digit.
pub open spec fn all_digits(s: Seq<char>) -> bool {
    forall|i: int| 0 <= i < s.len() ==> is_ascii_digit(#[trigger] s[i])
}

/// The value of a digit string read in base ten.
pub open spec fn digits_val(s: Seq<char>) -> int
    decreases s.len(),
{
    if s.len() == 0 {
        0
    } else {
        digits_val(s.drop_last()) * 10 + digit_val(s.last())
    }
}

pub proof fn lemma_digits_val_nonneg(s: Seq<char>)
    requires
        all_digits(s),
    ensures
        0 <= digits_val(s),
    decreases s.len(),
{
    if s.len() > 0 {
        assert(all_digits(s.drop_last())) by {
            assert(forall|i: int| 0 <= i < s.len() - 1 ==> s.drop_last()[i] == s[i]);
        }
        lemma_digits_val_nonneg(s.drop_last());
    }
}

/// A digit string's value only grows as digits are appended.
pub proof fn lemma_digits_val_prefix(s: Seq<char>, k: int)
    requires
        all_digits(s),
        0 <= k <= s.len(),
    ensures
        digits_val(s.subrange(0, k)) <= digits_val(s),
    decreases s.len() - k,
{
    if k == s.len() {
        assert(s.subrange(0, k) =~= s);
    } else {
        let a = s.subrange(0, k);
        let b = s.subrange(0, k + 1);
        assert(b.drop_last() =~= a);
        assert(b.last() == s[k]);
        assert(all_digits(a)) by {
            assert(forall|i: int| 0 <= i < k ==> a[i] == s[i]);
        }
        lemma_digits_val_nonneg(a);
        assert(digits_val(b) == digits_val(a) * 10 + digit_val(s[k]));
        assert(digits_val(a) * 10 >= digits_val(a)) by (nonlinear_arith)
            requires
                digits_val(a) >= 0,
        ;
        lemma_digits_val_prefix(s, k + 1);
    }
}

/// The digits of a number string: the string itself, or what follows one
/// leading `+`.
pub open spec fn u64_body(s: Seq<char>) -> Seq<char> {
    if s.len() > 0 && s[0] == '+' {
        s.subrange(1, s.len() as int)
    } else {
        s
    }
}

/// What `u64` parsing accepts: an optional leading `+`, then one or more
/// decimal digits whose value fits in 64 bits.
pub open spec fn parse_u64_of(s: Seq<char>) -> Option<u64> {
    if u64_body(s).len() > 0 && all_digits(u64_body(s)) && digits_val(u64_body(s)) <= u64::MAX {
        Some(digits_val(u64_body(s)) as u64)
    } else {
        None
    }
}

/// Parse an unsigned 64-bit decimal number, rejecting anything else.
pub fn parse_u64_str(s: &str) -> (r: Option<u64>)
    ensures
        r == parse_u64_of(s@),
{
    let n = s.unicode_len();
    let start: usize = if n > 0 && s.get_char(0) == '+' {
        1
    } else {
        0
    };
    let ghost body = u64_body(s@);
    proof {
        assert(body.len() == n - start);
        assert(forall|j: int| 0 <= j < body.len() ==> body[j] == s@[j + start]);
    }
    if start == n {
        return None;
    }
    let mut val: u64 = 0;
    let mut i: usize = start;
    while i < n
        invariant
            start <= i <= n,
            n == s@.len(),
            body == u64_body(s@),
            body.len() == n - start,
            forall|j: int| 0 <= j < body.len() ==> body[j] == s@[j + start],
            all_digits(body.subrange(0, i - start)),
            val == digits_val(body.subrange(0, i - start)),
        decreases n - i,
    {
        let ghost pre = body.subrange(0, i - start);
        let ghost pre1 = body.subrange(0, i - start + 1);
        proof {
            assert(pre1.drop_last() =~= pre);
            assert(pre1.last() == s@[i as int]);
        }
        let c = s.get_char(i);
        let cv = c as u32;
        if cv < 48 || cv > 57 {
            proof {
                assert(!is_ascii_digit(body[i - start]));
            }
            return None;
        }
        let d = (cv - 48) as u64;
        if val > (u64::MAX - d) / 10 {
            proof {
                let q = ((u64::MAX - d) / 10) as int;
                assert(val * 10 + d > u64::MAX) by (nonlinear_arith)
                    requires
                        val as int > q,
                        q == ((u64::MAX - d) as int) / 10,
                        0 <= d <= 9,
                ;
                if all_digits(body) && digits_val(body) <= u64::MAX {
                    lemma_digits_val_prefix(body, i - start + 1);
                    assert(digits_val(pre1) == val * 10 + d);
                }
            }
            return None;
        }
        proof {
            let q = ((u64::MAX - d) / 10) as int;
            assert(val * 10 + d <= u64::MAX) by (nonlinear_arith)
                requires
                    val as int <= q,
                    q == ((u64::MAX - d) as int) / 10,
                    0 <= d <= 9,
            ;
        }
        val = val * 10 + d;
        i = i + 1;
    }
    proof {
        assert(body.subrange(0, i - start) =~= body);
    }
    Some(val)
}

/// The pieces of `s` after position `pos`, split at every occurrence of `c`.
/// Splitting keeps empty pieces, and an empty string is one empty piece.
pub open spec fn split_from(s: Seq<char>, c: char, pos: int) -> Seq<Seq<char>>
    decreases s.len() - pos,
    when 0 <= pos <= s.len()
    via split_from_decreases
{
    match find_char_from(s, c, pos) {
        Some(j) => seq![s.subrange(pos, j)] + split_from(s, c, j + 1),
        None => seq![s.subrange(pos, s.len() as int)],
    }
}

#[via_fn]
proof fn split_from_decreases(s: Seq<char>, c: char, pos: int) {
    lemma_find_char_from(s, c, pos);
}

/// The pieces of `s` split at every occurrence of `c`.
pub open spec fn split_char_of(s: Seq<char>, c: char) -> Seq<Seq<char>> {
    split_from(s, c, 0)
}

/// Split `s` at every occurrence of `c`, keeping empty pieces.
pub fn split_str(s: &str, c: char) -> (r: Vec<String>)
    ensures
        str_views(r@) == split_char_of(s@, c),
{
    let n = s.unicode_len();
    let mut out: Vec<String> = Vec::new();
    let mut pos: usize = 0;
    proof {
        assert(str_views(out@) =~= Seq::<Seq<char>>::empty());
    }
    loop
        invariant
            pos <= n,
            n == s@.len(),
            split_char_of(s@, c) == str_views(out@) + split_from(s@, c, pos as int),
        decreases n - pos,
    {
        let ghost old_views = str_views(out@);
        proof {
            lemma_find_char_from(s@, c, pos as int);
        }
        match find_char_str(s, c, pos) {
            Some(j) => {
                let piece = s.substring_char(pos, j).to_owned();
                out.push(piece);
                proof {
                    assert(str_views(out@) =~= old_views + seq![s@.subrange(pos as int, j as int)]);
                    assert(str_views(out@) + split_from(s@, c, j + 1) =~= old_views + split_from(
                        s@,
                        c,
                        pos as int,
                    ));
                }
                pos = j + 1;
            },
            None => {
                let piece = s.substring_char(pos, n).to_owned();
                out.push(piece);
                proof {
                    assert(str_views(out@) =~= old_views + seq![
                        s@.subrange(pos as int, n as int),
                    ]);
                    assert(str_views(out@) =~= old_views + split_from(s@, c, pos as int));
                }
                return out;
            },
        }
    }
}

/// A line with one trailing carriage return stripped, as line splitting
/// strips it before a line feed.
pub open spec fn strip_cr(line: Seq<char>) -> Seq<char> {
    if line.len() > 0 && line.last() == '\r' {
        line.drop_last()
    } else {
        line
    }
}

/// The lines of `s` after position `pos`: pieces end at each line feed, a
/// carriage return directly before a line feed is dropped, and a trailing
/// line terminator opens no further line.
pub open spec fn lines_from(s: Seq<char>, pos: int) -> Seq<Seq<char>>
    decreases s.len() - pos,
    when 0 <= pos <= s.len()
    via lines_from_decreases
{
    if pos >= s.len() {
        seq![]
    } else {
        match find_char_from(s, '\n', pos) {
            Some(j) => seq![strip_cr(s.subrange(pos, j))] + lines_from(s, j + 1),
            None => seq![s.subrange(pos, s.len() as int)],
        }
    }
}

#[via_fn]
proof fn lines_from_decreases(s: Seq<char>, pos: int) {
    lemma_find_char_from(s, '\n', pos);
}

/// The lines of `s`.
pub open spec fn lines_of(s: Seq<char>) -> Seq<Seq<char>> {
    lines_from(s, 0)
}

/// Split `s` into its lines.
pub fn split_lines(s: &str) -> (r: Vec<String>)
    ensures
        str_views(r@) == lines_of(s@),
{
    let n = s.unicode_len();
    let mut out: Vec<String> = Vec::new();
    let mut pos: usize = 0;
    proof {
        assert(str_views(out@) =~= Seq::<Seq<char>>::empty());
    }
    while pos < n
        invariant
            pos <= n,
            n == s@.len(),
            lines_of(s@) == str_views(out@) + lines_from(s@, pos as int),
        decreases n - pos,
    {
        let ghost old_views = str_views(out@);
        proof {
            lemma_find_char_from(s@, '\n', pos as int);
        }
        match find_char_str(s, '\n', pos) {
            Some(j) => {
                let piece = if j > pos && s.get_char(j - 1) == '\r' {
                    s.substring_char(pos, j - 1)
                } else {
                    s.substring_char(pos, j)
                };
                proof {
                    assert(s@.subrange(pos as int, j as int).len() == j - pos);
                    if j > pos && s@[j - 1] == '\r' {
                        assert(s@.subrange(pos as int, j as int).drop_last() =~= s@.subrange(
                            pos as int,
                            j as int - 1,
                        ));
                    }
                    assert(piece@ == strip_cr(s@.subrange(pos as int, j as int)));
                }
                out.push(piece.to_owned());
                proof {
                    assert(str_views(out@) =~= old_views + seq![
                        strip_cr(s@.subrange(pos as int, j as int)),
                    ]);
                    assert(str_views(out@) + lines_from(s@, j + 1) =~= old_views + lines_from(
                        s@,
                        pos as int,
                    ));
                }
                pos = j + 1;
            },
            None => {
                let piece = s.substring_char(pos, n).to_owned();
                out.push(piece);
                proof {
                    assert(str_views(out@) =~= old_views + seq![
                        s@.subrange(pos as int, n as int),
                    ]);
                    assert(str_views(out@) =~= old_views + lines_from(s@, pos as int));
                }
                return out;
            },
        }
    }
    out
}

} // verus!
