//! Extraction of the huge-page granularity from the platform's textual
//! configuration report.
//!
//! The report is a sequence of newline-separated `Label: value [unit]` lines.
//! The first line beginning with the exact label `Hugepagesize:` is the one
//! that matters: the first whitespace-delimited field after the label is the
//! magnitude (a base-10 integer), and a second field equal to `kB` scales the
//! magnitude by 1024.  A missing label line, a magnitude that is not a pure
//! integer, or a scaled value that does not fit the result type all degrade
//! to the sentinel `-1`; a label line with no magnitude field yields `0`.

use vstd::prelude::*;
use vstd::string::StrSliceExecFns;

verus! {

// ---------------------------------------------------------------------------
// Character classes
// ---------------------------------------------------------------------------

/// Field separators within a line: space, horizontal tab, and the carriage
/// return a CRLF line ending leaves behind.
pub open spec fn is_space_char(c: char) -> bool {
    c == ' ' || c == '\t' || c == '\r'
}

/// ASCII decimal digit.
pub open spec fn is_digit_char(c: char) -> bool {
    48 <= c as u32 && c as u32 <= 57
}

/// Numeric value of an ASCII decimal digit.
pub open spec fn digit_val(c: char) -> int {
    c as u32 - 48
}

// ---------------------------------------------------------------------------
// Runs of characters
// ---------------------------------------------------------------------------

/// Length of the leading line of `s`: the number of characters before the
/// first newline, or all of `s` when it holds none.
pub open spec fn line_len(s: Seq<char>) -> nat
    decreases s.len(),
{
    if s.len() == 0 {
        0
    } else if s[0] == '\n' {
        0
    } else {
        (1 + line_len(s.skip(1))) as nat
    }
}

/// Number of leading separator characters of `s`.
pub open spec fn space_run(s: Seq<char>) -> nat
    decreases s.len(),
{
    if s.len() == 0 {
        0
    } else if is_space_char(s[0]) {
        (1 + space_run(s.skip(1))) as nat
    } else {
        0
    }
}

/// Number of leading non-separator characters of `s`.
pub open spec fn field_run(s: Seq<char>) -> nat
    decreases s.len(),
{
    if s.len() == 0 {
        0
    } else if !is_space_char(s[0]) {
        (1 + field_run(s.skip(1))) as nat
    } else {
        0
    }
}

/// The first whitespace-delimited field of `s`: the maximal run of
/// non-separator characters after the leading separators.
pub open spec fn first_field(s: Seq<char>) -> Seq<char> {
    let a = space_run(s) as int;
    s.subrange(a, a + field_run(s.skip(a)) as int)
}

/// What remains of `s` after its leading separators and its first field.
pub open spec fn rest_after_field(s: Seq<char>) -> Seq<char> {
    let a = space_run(s) as int;
    s.skip(a + field_run(s.skip(a)) as int)
}

// ---------------------------------------------------------------------------
// Integer tokens
// ---------------------------------------------------------------------------

pub open spec fn all_digits(s: Seq<char>) -> bool {
    forall|i: int| 0 <= i < s.len() ==> is_digit_char(s[i])
}

/// Value of a digit string read in base 10.
pub open spec fn digits_value(s: Seq<char>) -> int
    decreases s.len(),
{
    if s.len() == 0 {
        0
    } else {
        digits_value(s.drop_last()) * 10 + digit_val(s.last())
    }
}

/// A base-10 integer token: an optional sign followed by at least one digit
/// and nothing else.
pub open spec fn is_integer_token(f: Seq<char>) -> bool {
    if f.len() == 0 {
        false
    } else if f[0] == '+' || f[0] == '-' {
        f.len() > 1 && all_digits(f.skip(1))
    } else {
        all_digits(f)
    }
}

/// The signed value of an integer token.
pub open spec fn integer_token_value(f: Seq<char>) -> int {
    if f.len() > 0 && f[0] == '-' {
        -digits_value(f.skip(1))
    } else if f.len() > 0 && f[0] == '+' {
        digits_value(f.skip(1))
    } else {
        digits_value(f)
    }
}

/// The token is a well-formed integer whose value fits in `isize`.
pub open spec fn parses_as_isize(f: Seq<char>) -> bool {
    &&& is_integer_token(f)
    &&& isize::MIN as int <= integer_token_value(f)
    &&& integer_token_value(f) <= isize::MAX as int
}

// ---------------------------------------------------------------------------
// The label line
// ---------------------------------------------------------------------------

/// The label that marks the relevant report line.
pub open spec fn label_token() -> Seq<char> {
    seq!['H', 'u', 'g', 'e', 'p', 'a', 'g', 'e', 's', 'i', 'z', 'e', ':']
}

pub open spec fn starts_with_label(line: Seq<char>) -> bool {
    line.len() >= 13 && line.subrange(0, 13) == label_token()
}

/// Scale factor named by a unit field: `kB` means kibibytes, anything else
/// leaves the magnitude as bytes.
pub open spec fn unit_factor(f: Seq<char>) -> int {
    if f == seq!['k', 'B'] {
        1024
    } else {
        1
    }
}

/// Result for the remainder of a label line (everything after the label):
/// `0` when there is no magnitude field, `-1` when the magnitude is not an
/// integer fitting `isize` or the scaled value does not fit `isize`, and the
/// scaled magnitude otherwise.
pub open spec fn parse_label_line(rest: Seq<char>) -> int {
    let f1 = first_field(rest);
    if f1.len() == 0 {
        0
    } else if !parses_as_isize(f1) {
        -1
    } else {
        let v = integer_token_value(f1) * unit_factor(first_field(rest_after_field(rest)));
        if isize::MIN as int <= v && v <= isize::MAX as int {
            v
        } else {
            -1
        }
    }
}

/// Result for a whole report: the value of the first line that begins with
/// the label, or `-1` when no line does.
pub open spec fn spec_parse_hugepage_size(s: Seq<char>) -> int
    decreases s.len(),
    via spec_parse_hugepage_size_dec
{
    let l = line_len(s) as int;
    if starts_with_label(s.subrange(0, l)) {
        parse_label_line(s.subrange(13, l))
    } else if l == s.len() {
        -1
    } else {
        spec_parse_hugepage_size(s.skip(l + 1))
    }
}

#[via_fn]
proof fn spec_parse_hugepage_size_dec(s: Seq<char>) {
    lemma_line_len_le(s);
}

// ---------------------------------------------------------------------------
// Lemmas characterising the runs
// ---------------------------------------------------------------------------

proof fn lemma_line_len_le(s: Seq<char>)
    ensures
        line_len(s) <= s.len(),
    decreases s.len(),
{
    if s.len() > 0 && s[0] != '\n' {
        lemma_line_len_le(s.skip(1));
    }
}

/// `line_len(s)` is the position of the first newline, or `s.len()`.
proof fn lemma_line_len_at(s: Seq<char>, k: int)
    requires
        0 <= k <= s.len(),
        forall|i: int| 0 <= i < k ==> s[i] != '\n',
        k == s.len() || s[k] == '\n',
    ensures
        line_len(s) == k,
    decreases k,
{
    if k > 0 {
        assert(s[0] != '\n');
        assert forall|i: int| 0 <= i < k - 1 implies s.skip(1)[i] != '\n' by {
            assert(s.skip(1)[i] == s[i + 1]);
        }
        if k < s.len() {
            assert(s.skip(1)[k - 1] == s[k]);
        }
        lemma_line_len_at(s.skip(1), k - 1);
    }
}

proof fn lemma_space_run_at(s: Seq<char>, k: int)
    requires
        0 <= k <= s.len(),
        forall|i: int| 0 <= i < k ==> is_space_char(s[i]),
        k == s.len() || !is_space_char(s[k]),
    ensures
        space_run(s) == k,
    decreases k,
{
    if k > 0 {
        assert(is_space_char(s[0]));
        assert forall|i: int| 0 <= i < k - 1 implies is_space_char(s.skip(1)[i]) by {
            assert(s.skip(1)[i] == s[i + 1]);
        }
        if k < s.len() {
            assert(s.skip(1)[k - 1] == s[k]);
        }
        lemma_space_run_at(s.skip(1), k - 1);
    }
}

proof fn lemma_field_run_at(s: Seq<char>, k: int)
    requires
        0 <= k <= s.len(),
        forall|i: int| 0 <= i < k ==> !is_space_char(s[i]),
        k == s.len() || is_space_char(s[k]),
    ensures
        field_run(s) == k,
    decreases k,
{
    if k > 0 {
        assert(!is_space_char(s[0]));
        assert forall|i: int| 0 <= i < k - 1 implies !is_space_char(s.skip(1)[i]) by {
            assert(s.skip(1)[i] == s[i + 1]);
        }
        if k < s.len() {
            assert(s.skip(1)[k - 1] == s[k]);
        }
        lemma_field_run_at(s.skip(1), k - 1);
    }
}

// ---------------------------------------------------------------------------
// Lemmas about digit strings
// ---------------------------------------------------------------------------

proof fn lemma_digits_value_nonneg(d: Seq<char>)
    requires
        all_digits(d),
    ensures
        digits_value(d) >= 0,
    decreases d.len(),
{
    if d.len() > 0 {
        assert forall|i: int| 0 <= i < d.drop_last().len() implies is_digit_char(
            d.drop_last()[i],
        ) by {
            assert(d.drop_last()[i] == d[i]);
        }
        lemma_digits_value_nonneg(d.drop_last());
        assert(digit_val(d.last()) >= 0);
    }
}

/// Appending one digit multiplies the value by ten and adds the digit.
proof fn lemma_digits_value_step(d: Seq<char>, k: int)
    requires
        0 <= k < d.len(),
    ensures
        digits_value(d.subrange(0, k + 1)) == digits_value(d.subrange(0, k)) * 10 + digit_val(
            d[k],
        ),
{
    let e = d.subrange(0, k + 1);
    assert(e.drop_last() =~= d.subrange(0, k));
    assert(e.last() == d[k]);
}

/// A digit string is worth at least any of its prefixes.
proof fn lemma_digits_value_prefix_le(d: Seq<char>, k: int)
    requires
        all_digits(d),
        0 <= k <= d.len(),
    ensures
        digits_value(d.subrange(0, k)) <= digits_value(d),
    decreases d.len() - k,
{
    if k == d.len() {
        assert(d.subrange(0, k) =~= d);
    } else {
        lemma_digits_value_step(d, k);
        assert forall|i: int| 0 <= i < d.subrange(0, k).len() implies is_digit_char(
            d.subrange(0, k)[i],
        ) by {
            assert(d.subrange(0, k)[i] == d[i]);
        }
        lemma_digits_value_nonneg(d.subrange(0, k));
        assert(digit_val(d[k]) >= 0);
        lemma_digits_value_prefix_le(d, k + 1);
    }
}

// ---------------------------------------------------------------------------
// Executable scanning helpers
// ---------------------------------------------------------------------------

fn is_space(c: char) -> (b: bool)
    ensures
        b == is_space_char(c),
{
    c == ' ' || c == '\t' || c == '\r'
}

/// Collects the characters of `s` into a vector.
fn chars_vec(s: &str) -> (r: Vec<char>)
    ensures
        r@ == s@,
{
    let n = s.unicode_len();
    let mut v: Vec<char> = Vec::new();
    let mut i: usize = 0;
    while i < n
        invariant
            i <= n,
            n == s@.len(),
            v@ == s@.subrange(0, i as int),
        decreases n - i,
    {
        let c = s.get_char(i);
        v.push(c);
        proof {
            assert(v@ =~= s@.subrange(0, i + 1));
        }
        i = i + 1;
    }
    proof {
        assert(v@ =~= s@);
    }
    v
}

/// Index of the first newline at or after `pos`, or the end of the text.
fn scan_line_end(cs: &Vec<char>, pos: usize) -> (end: usize)
    requires
        pos <= cs@.len(),
    ensures
        pos <= end <= cs@.len(),
        end - pos == line_len(cs@.skip(pos as int)),
        end < cs@.len() ==> cs@[end as int] == '\n',
{
    let n = cs.len();
    let mut j: usize = pos;
    while j < n && cs[j] != '\n'
        invariant
            pos <= j <= n,
            n == cs@.len(),
            forall|i: int| pos <= i < j ==> cs@[i] != '\n',
        decreases n - j,
    {
        j = j + 1;
    }
    proof {
        let t = cs@.skip(pos as int);
        assert forall|i: int| 0 <= i < j - pos implies t[i] != '\n' by {
            assert(t[i] == cs@[pos + i]);
        }
        if (j as int) < t.len() + pos {
            assert(t[j - pos] == cs@[j as int]);
        }
        lemma_line_len_at(t, j - pos);
    }
    j
}

/// Index of the first non-separator at or after `from` and below `end`.
fn scan_spaces(cs: &Vec<char>, from: usize, end: usize) -> (j: usize)
    requires
        from <= end <= cs@.len(),
    ensures
        from <= j <= end,
        j - from == space_run(cs@.subrange(from as int, end as int)),
{
    let mut j: usize = from;
    while j < end && is_space(cs[j])
        invariant
            from <= j <= end,
            end <= cs@.len(),
            forall|i: int| from <= i < j ==> is_space_char(cs@[i]),
        decreases end - j,
    {
        j = j + 1;
    }
    proof {
        let t = cs@.subrange(from as int, end as int);
        assert forall|i: int| 0 <= i < j - from implies is_space_char(t[i]) by {
            assert(t[i] == cs@[from + i]);
        }
        if j < end {
            assert(t[j - from] == cs@[j as int]);
        }
        lemma_space_run_at(t, j - from);
    }
    j
}

/// Index just past the field starting at `from`, staying below `end`.
fn scan_field(cs: &Vec<char>, from: usize, end: usize) -> (j: usize)
    requires
        from <= end <= cs@.len(),
    ensures
        from <= j <= end,
        j - from == field_run(cs@.subrange(from as int, end as int)),
{
    let mut j: usize = from;
    while j < end && !is_space(cs[j])
        invariant
            from <= j <= end,
            end <= cs@.len(),
            forall|i: int| from <= i < j ==> !is_space_char(cs@[i]),
        decreases end - j,
    {
        j = j + 1;
    }
    proof {
        let t = cs@.subrange(from as int, end as int);
        assert forall|i: int| 0 <= i < j - from implies !is_space_char(t[i]) by {
            assert(t[i] == cs@[from + i]);
        }
        if j < end {
            assert(t[j - from] == cs@[j as int]);
        }
        lemma_field_run_at(t, j - from);
    }
    j
}

/// The label, as runtime characters.
fn label_chars() -> (v: Vec<char>)
    ensures
        v@ == label_token(),
{
    let mut v: Vec<char> = Vec::new();
    v.push('H');
    v.push('u');
    v.push('g');
    v.push('e');
    v.push('p');
    v.push('a');
    v.push('g');
    v.push('e');
    v.push('s');
    v.push('i');
    v.push('z');
    v.push('e');
    v.push(':');
    proof {
        assert(v@ =~= label_token());
    }
    v
}

/// Does the line `cs[pos..end]` begin with the label?
fn matches_label(cs: &Vec<char>, pos: usize, end: usize) -> (b: bool)
    requires
        pos <= end <= cs@.len(),
    ensures
        b == starts_with_label(cs@.subrange(pos as int, end as int)),
{
    let ghost line = cs@.subrange(pos as int, end as int);
    if end - pos < 13 {
        return false;
    }
    let token = label_chars();
    let mut k: usize = 0;
    while k < 13
        invariant
            k <= 13,
            pos + 13 <= end <= cs@.len(),
            token@ == label_token(),
            line == cs@.subrange(pos as int, end as int),
            forall|i: int| 0 <= i < k ==> cs@[pos + i] == label_token()[i],
        decreases 13 - k,
    {
        if cs[pos + k] != token[k] {
            proof {
                assert(line.subrange(0, 13)[k as int] == cs@[pos + k]);
            }
            return false;
        }
        k = k + 1;
    }
    proof {
        assert forall|i: int| 0 <= i < 13 implies line.subrange(0, 13)[i] == label_token()[i] by {
            assert(line.subrange(0, 13)[i] == cs@[pos + i]);
        }
        assert(line.subrange(0, 13) =~= label_token());
    }
    true
}

/// Parses `cs[start..end]` as a signed base-10 integer fitting `isize`.
fn parse_isize_field(cs: &Vec<char>, start: usize, end: usize) -> (r: Option<isize>)
    requires
        start <= end <= cs@.len(),
    ensures
        ({
            let f = cs@.subrange(start as int, end as int);
            match r {
                Some(v) => parses_as_isize(f) && v as int == integer_token_value(f),
                None => !parses_as_isize(f),
            }
        }),
{
    let ghost f = cs@.subrange(start as int, end as int);
    if start == end {
        return None;
    }
    let first = cs[start];
    let neg = first == '-';
    let has_sign = neg || first == '+';
    let dstart = if has_sign {
        start + 1
    } else {
        start
    };
    let ghost d = cs@.subrange(dstart as int, end as int);
    proof {
        assert(f[0] == cs@[start as int]);
        if has_sign {
            assert(d =~= f.skip(1));
        } else {
            assert(d =~= f);
        }
    }
    if dstart == end {
        // A bare sign is not an integer token.
        return None;
    }
    let limit: u128 = if neg {
        (isize::MAX as u128) + 1
    } else {
        isize::MAX as u128
    };
    let mut acc: u128 = 0;
    let mut i: usize = dstart;
    while i < end
        invariant
            start <= dstart <= i <= end <= cs@.len(),
            dstart < end,
            f == cs@.subrange(start as int, end as int),
            d == cs@.subrange(dstart as int, end as int),
            f.len() > 0,
            neg == (f[0] == '-'),
            has_sign == (f[0] == '-' || f[0] == '+'),
            has_sign ==> dstart == start + 1 && d == f.skip(1),
            !has_sign ==> dstart == start && d == f,
            limit as int == if neg {
                isize::MAX as int + 1
            } else {
                isize::MAX as int
            },
            forall|k: int| 0 <= k < i - dstart ==> is_digit_char(d[k]),
            acc as int == digits_value(d.subrange(0, i - dstart)),
            acc <= limit,
        decreases end - i,
    {
        let c = cs[i];
        let u = c as u32;
        proof {
            assert(d[i - dstart] == cs@[i as int]);
        }
        if u < 48 || u > 57 {
            // A non-digit makes the token invalid.
            proof {
                assert(!is_digit_char(d[i - dstart]));
                assert(!all_digits(d));
                assert(!is_integer_token(f));
            }
            return None;
        }
        let dv = (u - 48) as u128;
        let nacc = acc * 10 + dv;
        proof {
            lemma_digits_value_step(d, i - dstart);
        }
        if nacc > limit {
            // The digits already read exceed every value that fits.
            proof {
                let j = i - dstart + 1;
                if is_integer_token(f) {
                    assert(all_digits(d));
                    lemma_digits_value_prefix_le(d, j);
                    assert(digits_value(d) >= nacc as int);
                    assert(isize::MIN as int == -(isize::MAX as int) - 1);
                    if neg {
                        assert(integer_token_value(f) == -digits_value(d));
                        assert(integer_token_value(f) < isize::MIN as int);
                    } else {
                        assert(integer_token_value(f) == digits_value(d));
                        assert(integer_token_value(f) > isize::MAX as int);
                    }
                }
            }
            return None;
        }
        acc = nacc;
        i = i + 1;
    }
    proof {
        assert(d.subrange(0, end - dstart) =~= d);
        assert(all_digits(d));
        assert(acc as int == digits_value(d));
        assert(isize::MIN as int == -(isize::MAX as int) - 1);
    }
    if neg {
        if acc == (isize::MAX as u128) + 1 {
            Some(isize::MIN)
        } else {
            Some(-(acc as isize))
        }
    } else {
        Some(acc as isize)
    }
}

/// Evaluates the remainder of a label line, `cs[start..end]`.
fn parse_label_line_chars(cs: &Vec<char>, start: usize, end: usize) -> (r: isize)
    requires
        start <= end <= cs@.len(),
    ensures
        r as int == parse_label_line(cs@.subrange(start as int, end as int)),
{
    let ghost rest = cs@.subrange(start as int, end as int);
    let a = scan_spaces(cs, start, end);
    proof {
        assert(rest.skip(a - start) =~= cs@.subrange(a as int, end as int));
    }
    let fe = scan_field(cs, a, end);
    proof {
        assert(first_field(rest) =~= cs@.subrange(a as int, fe as int));
    }
    if a == fe {
        // No magnitude field after the label.
        return 0;
    }
    let m = parse_isize_field(cs, a, fe);
    match m {
        None => -1,
        Some(v) => {
            let b = scan_spaces(cs, fe, end);
            proof {
                assert(rest_after_field(rest) =~= cs@.subrange(fe as int, end as int));
                assert(rest_after_field(rest).skip(b - fe) =~= cs@.subrange(
                    b as int,
                    end as int,
                ));
            }
            let ue = scan_field(cs, b, end);
            let ghost unit = first_field(rest_after_field(rest));
            proof {
                assert(unit =~= cs@.subrange(b as int, ue as int));
            }
            let is_kb = ue - b == 2 && cs[b] == 'k' && cs[b + 1] == 'B';
            proof {
                if is_kb {
                    assert(unit =~= seq!['k', 'B']);
                } else {
                    if unit == seq!['k', 'B'] {
                        assert(unit.len() == 2);
                        assert(cs@[b as int] == unit[0]);
                        assert(cs@[b + 1] == unit[1]);
                        assert(false);
                    }
                }
            }
            if is_kb {
                let wide: i128 = (v as i128) * 1024;
                if wide > (isize::MAX as i128) || wide < (isize::MIN as i128) {
                    return -1;
                }
                wide as isize
            } else {
                v
            }
        },
    }
}

// ---------------------------------------------------------------------------
// Public entry points
// ---------------------------------------------------------------------------

/// Scans the report for the first `Hugepagesize:` line and returns the
/// huge-page size in bytes, `0` for a label line with no magnitude, or `-1`
/// when the report holds no such line or its magnitude cannot be read.
pub fn parse_hugepage_size(s: &str) -> (r: isize)
    ensures
        r as int == spec_parse_hugepage_size(s@),
{
    let cs = chars_vec(s);
    parse_hugepage_chars(&cs)
}

/// Character-level form of [`parse_hugepage_size`].
fn parse_hugepage_chars(cs: &Vec<char>) -> (r: isize)
    ensures
        r as int == spec_parse_hugepage_size(cs@),
{
    let n = cs.len();
    let mut pos: usize = 0;
    proof {
        assert(cs@.skip(0) =~= cs@);
    }
    loop
        invariant
            pos <= n,
            n == cs@.len(),
            spec_parse_hugepage_size(cs@) == spec_parse_hugepage_size(cs@.skip(pos as int)),
        decreases n - pos,
    {
        let end = scan_line_end(cs, pos);
        let ghost t = cs@.skip(pos as int);
        proof {
            assert(t.subrange(0, line_len(t) as int) =~= cs@.subrange(pos as int, end as int));
        }
        if matches_label(cs, pos, end) {
            let r = parse_label_line_chars(cs, pos + 13, end);
            proof {
                assert(t.subrange(13, line_len(t) as int) =~= cs@.subrange(
                    pos + 13,
                    end as int,
                ));
            }
            return r;
        } else if end == n {
            proof {
                assert(line_len(t) == t.len());
            }
            return -1;
        } else {
            proof {
                assert(t.skip(line_len(t) as int + 1) =~= cs@.skip(end + 1));
            }
            pos = end + 1;
        }
    }
}

} // verus!
