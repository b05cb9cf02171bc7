//! Quick Info: the active file's stats shown in the bottom Context Column
//! sub-panel — size, last-modified, workspace-relative path, and word /
//! character / line counts — and the formatting of those values.
//!
//! Reading the file's metadata and text is filesystem I/O done by the
//! caller; everything computed from what was read is here.

use vstd::prelude::*;

use crate::path::{push_char, relative_text, FsPath};
use vstd::std_specs::iter::IteratorSpec;

verus! {

/// A point in time as the filesystem reports it: whole seconds relative to
/// the Unix epoch (negative before it) and the nanoseconds within that
/// second. Two modification times are equal exactly when both parts are.
#[derive(Debug, PartialEq, Eq, Structural, Clone, Copy)]
pub struct Timestamp {
    pub secs: i64,
    pub nanos: u32,
}

/// Word, character, and line counts of a file's text.
#[derive(Debug, PartialEq, Eq, Structural, Clone, Copy)]
pub struct Counts {
    pub words: usize,
    pub chars: usize,
    pub lines: usize,
}

/// The active file's stats for the Quick Info sub-panel.
pub struct QuickInfo {
    pub size: u64,
    pub modified: Option<Timestamp>,
    pub relative_path: String,
    /// Content counts, or `None` if the file couldn't be read as text.
    pub counts: Option<Counts>,
}

/// `char::is_whitespace`: the Unicode `White_Space` characters.
pub open spec fn is_white(c: char) -> bool {
    let v = c as int;
    ||| 0x09 <= v <= 0x0D
    ||| v == 0x20
    ||| v == 0x85
    ||| v == 0xA0
    ||| v == 0x1680
    ||| 0x2000 <= v <= 0x200A
    ||| v == 0x2028
    ||| v == 0x2029
    ||| v == 0x202F
    ||| v == 0x205F
    ||| v == 0x3000
}

/// The number of whitespace-separated words: characters that are not
/// whitespace and start the text or follow whitespace.
pub open spec fn word_count(s: Seq<char>) -> nat
    decreases s.len(),
{
    if s.len() == 0 {
        0
    } else {
        word_count(s.drop_last()) + if !is_white(s.last()) && (s.len() == 1 || is_white(
            s[s.len() - 2],
        )) {
            1nat
        } else {
            0nat
        }
    }
}

/// The number of newline characters.
pub open spec fn newline_count(s: Seq<char>) -> nat
    decreases s.len(),
{
    if s.len() == 0 {
        0
    } else {
        newline_count(s.drop_last()) + if s.last() == '\n' {
            1nat
        } else {
            0nat
        }
    }
}

proof fn lemma_newlines_bounded(s: Seq<char>)
    ensures
        newline_count(s) <= s.len(),
    decreases s.len(),
{
    if s.len() > 0 {
        lemma_newlines_bounded(s.drop_last());
    }
}

/// The number of lines as `str::lines` yields them: one per newline, plus a
/// last line that has no newline after it; an empty text has none.
pub open spec fn line_count(s: Seq<char>) -> nat {
    if s.len() == 0 {
        0
    } else if s.last() == '\n' {
        newline_count(s)
    } else {
        newline_count(s) + 1
    }
}

/// `char::is_whitespace`.
pub fn is_whitespace(c: char) -> (res: bool)
    ensures
        res == is_white(c),
{
    let v = c as u32;
    (0x09 <= v && v <= 0x0D) || v == 0x20 || v == 0x85 || v == 0xA0 || v == 0x1680 || (0x2000
        <= v && v <= 0x200A) || v == 0x2028 || v == 0x2029 || v == 0x202F || v == 0x205F || v
        == 0x3000
}

/// Count words (whitespace-separated), characters (Unicode scalar values), and
/// lines in `text`. A trailing newline does not add a phantom line, and an
/// empty string is all zeros.
pub fn count_text(text: &str) -> (counts: Counts)
    ensures
        counts.words == word_count(text@),
        counts.chars == text@.len(),
        counts.lines == line_count(text@),
{
    broadcast use vstd::string::group_string_axioms;

    let n = text.unicode_len();
    let mut it = text.chars();
    let ghost s = text@;
    let ghost mut k: int = 0;
    let mut words: usize = 0;
    let mut newlines: usize = 0;
    let mut prev_white = true;
    let mut last_newline = false;
    loop
        invariant
            n == s.len(),
            0 <= k <= s.len(),
            it.remaining() == s.skip(k),
            it.obeys_prophetic_iter_laws(),
            words == word_count(s.take(k)),
            newlines == newline_count(s.take(k)),
            words <= k,
            newlines <= k,
            prev_white == (k == 0 || is_white(s[k - 1])),
            last_newline == (k > 0 && s[k - 1] == '\n'),
        ensures
            k == s.len(),
            words == word_count(s.take(k)),
            newlines == newline_count(s.take(k)),
            newlines <= k,
            last_newline == (k > 0 && s[k - 1] == '\n'),
        decreases s.len() - k,
    {
        let ghost before = it.remaining();
        match it.next() {
            Some(c) => {
                proof {
                    assert(before.len() > 0);
                    assert(c == s[k]);
                    assert(s.take(k + 1).drop_last() =~= s.take(k));
                    assert(s.take(k + 1).last() == c);
                    if k > 0 {
                        assert(s.take(k + 1)[k - 1] == s[k - 1]);
                    }
                    assert(s.skip(k).drop_first() =~= s.skip(k + 1));
                }
                let white = is_whitespace(c);
                if !white && prev_white {
                    words = words + 1;
                }
                if c == '\n' {
                    newlines = newlines + 1;
                }
                prev_white = white;
                last_newline = c == '\n';
                proof {
                    k = k + 1;
                }
            },
            None => {
                proof {
                    assert(before.len() == 0);
                    assert(k == s.len());
                }
                break ;
            },
        }
    }
    proof {
        assert(s.take(k) =~= s);
        if n > 0 {
            lemma_newlines_bounded(s.drop_last());
        }
    }
    let lines = if n == 0 {
        0
    } else if last_newline {
        newlines
    } else {
        newlines + 1
    };
    Counts { words, chars: n, lines }
}

/// The character of a decimal digit.
pub open spec fn digit_char(d: nat) -> char {
    if d == 0 {
        '0'
    } else if d == 1 {
        '1'
    } else if d == 2 {
        '2'
    } else if d == 3 {
        '3'
    } else if d == 4 {
        '4'
    } else if d == 5 {
        '5'
    } else if d == 6 {
        '6'
    } else if d == 7 {
        '7'
    } else if d == 8 {
        '8'
    } else {
        '9'
    }
}

/// The decimal digits of `n`, without leading zeros.
pub open spec fn decimal(n: nat) -> Seq<char>
    decreases n,
{
    if n < 10 {
        seq![digit_char(n)]
    } else {
        decimal(n / 10) + seq![digit_char(n % 10)]
    }
}

fn digit(d: u64) -> (c: char)
    requires
        d < 10,
    ensures
        c == digit_char(d as nat),
{
    if d == 0 {
        '0'
    } else if d == 1 {
        '1'
    } else if d == 2 {
        '2'
    } else if d == 3 {
        '3'
    } else if d == 4 {
        '4'
    } else if d == 5 {
        '5'
    } else if d == 6 {
        '6'
    } else if d == 7 {
        '7'
    } else if d == 8 {
        '8'
    } else {
        '9'
    }
}

/// Appends the decimal digits of `n`.
pub(crate) fn push_decimal(out: &mut String, n: u64)
    ensures
        final(out)@ == old(out)@ + decimal(n as nat),
    decreases n,
{
    if n >= 10 {
        push_decimal(out, n / 10);
    }
    push_char(out, digit(n % 10));
    proof {
        if n >= 10 {
            assert(final(out)@ =~= old(out)@ + decimal(n as nat));
        } else {
            assert(final(out)@ =~= old(out)@ + decimal(n as nat));
        }
    }
}

/// Appends the characters of `s`.
fn push_chars(out: &mut String, s: &Vec<char>)
    ensures
        final(out)@ == old(out)@ + s@,
{
    let mut i: usize = 0;
    while i < s.len()
        invariant
            i <= s@.len(),
            out@ == old(out)@ + s@.take(i as int),
        decreases s@.len() - i,
    {
        push_char(out, s[i]);
        proof {
            assert(out@ =~= old(out)@ + s@.take(i + 1));
        }
        i = i + 1;
    }
    proof {
        assert(s@.take(s@.len() as int) =~= s@);
    }
}

/// The text of an elapsed time of `secs` seconds as a compact relative age.
pub open spec fn age_text(secs: nat) -> Seq<char> {
    if secs < 60 {
        seq!['j', 'u', 's', 't', ' ', 'n', 'o', 'w']
    } else if secs < 3600 {
        decimal(secs / 60) + seq!['m']
    } else if secs < 86400 {
        decimal(secs / 3600) + seq!['h']
    } else {
        decimal(secs / 86400) + seq!['d']
    }
}

/// Format an elapsed time, given in whole seconds, as a compact relative age,
/// e.g. `just now`, `2m`, `3h`, `5d`.
pub fn format_age(elapsed_secs: u64) -> (res: String)
    ensures
        res@ == age_text(elapsed_secs as nat),
{
    let mut out = String::new();
    if elapsed_secs < 60 {
        let word = vec!['j', 'u', 's', 't', ' ', 'n', 'o', 'w'];
        push_chars(&mut out, &word);
        proof {
            assert(out@ =~= age_text(elapsed_secs as nat));
        }
    } else if elapsed_secs < 3600 {
        push_decimal(&mut out, elapsed_secs / 60);
        push_char(&mut out, 'm');
        proof {
            assert(out@ =~= age_text(elapsed_secs as nat));
        }
    } else if elapsed_secs < 86400 {
        push_decimal(&mut out, elapsed_secs / 3600);
        push_char(&mut out, 'h');
        proof {
            assert(out@ =~= age_text(elapsed_secs as nat));
        }
    } else {
        push_decimal(&mut out, elapsed_secs / 86400);
        push_char(&mut out, 'd');
        proof {
            assert(out@ =~= age_text(elapsed_secs as nat));
        }
    }
    out
}

/// The file's path relative to the workspace root, falling back to the full
/// path if it isn't under the root.
pub fn relative_path(file: &FsPath, root: &FsPath) -> (res: String)
    ensures
        res@ == relative_text(file.text@, root.text@),
{
    file.relative_to(root)
}

/// Whether a file whose metadata now reads `current` (size and modified
/// time; `None` when it can't be read) differs from the `cached` stats.
pub open spec fn stats_differ(cached: Option<QuickInfo>, current: Option<(u64, Option<Timestamp>)>) -> bool {
    match cached {
        None => true,
        Some(c) => match current {
            None => true,
            Some((size, modified)) => size != c.size || modified != c.modified,
        },
    }
}

/// Whether the file differs from a cached [`QuickInfo`] (size or modified
/// time), warranting a recompute, given its metadata as just read (`None`
/// when it can't be read). `true` if nothing is cached or the file can't be
/// read.
pub fn file_changed(cached: Option<&QuickInfo>, current: Option<(u64, Option<Timestamp>)>) -> (res: bool)
    ensures
        res == stats_differ(
            match cached {
                Some(c) => Some(*c),
                None => None,
            },
            current,
        ),
{
    match cached {
        None => true,
        Some(c) => match current {
            None => true,
            Some((size, modified)) => {
                let same_time = match (modified, c.modified) {
                    (Some(a), Some(b)) => a.secs == b.secs && a.nanos == b.nanos,
                    (None, None) => true,
                    _ => false,
                };
                size != c.size || !same_time
            },
        },
    }
}

impl QuickInfo {
    /// The stats of `file` from what was read of it: its size and modified
    /// time, and its text when it could be read as text. The path is shown
    /// relative to `workspace_root`; counts are `None` without text.
    pub fn describe(
        file: &FsPath,
        workspace_root: &FsPath,
        size: u64,
        modified: Option<Timestamp>,
        text: Option<&str>,
    ) -> (info: QuickInfo)
        ensures
            info.size == size,
            info.modified == modified,
            info.relative_path@ == relative_text(file.text@, workspace_root.text@),
            match text {
                Some(t) => info.counts matches Some(c) && c.words == word_count(t@) && c.chars
                    == t@.len() && c.lines == line_count(t@),
                None => info.counts is None,
            },
    {
        QuickInfo {
            size,
            modified,
            relative_path: relative_path(file, workspace_root),
            counts: match text {
                Some(t) => Some(count_text(t)),
                None => None,
            },
        }
    }
}

/// The power of two by which `n` must be divided to fit in 53 bits: 1 for
/// `n < 2^53`, doubled for each further bit.
pub open spec fn f64_scale(n: nat) -> nat
    decreases n,
{
    if n < 0x20_0000_0000_0000 {
        1
    } else {
        2 * f64_scale(n / 2)
    }
}

/// `num / den` rounded to the nearest integer, ties to the even one.
pub open spec fn round_half_even(num: nat, den: nat) -> nat {
    let q = num / den;
    let r = num % den;
    if 2 * r > den || (2 * r == den && q % 2 == 1) {
        q + 1
    } else {
        q
    }
}

/// The value of `n as f64`: `n` rounded to 53 significant bits, ties to
/// even (exact below 2^53).
pub open spec fn as_f64_value(n: nat) -> nat {
    round_half_even(n, f64_scale(n)) * f64_scale(n)
}

/// The unit a byte count is shown in (1024-based) and its suffix.
pub open spec fn size_unit(bytes: nat) -> (nat, Seq<char>) {
    if bytes < 0x10_0000 {
        (0x400, seq![' ', 'K', 'B'])
    } else if bytes < 0x4000_0000 {
        (0x10_0000, seq![' ', 'M', 'B'])
    } else {
        (0x4000_0000, seq![' ', 'G', 'B'])
    }
}

/// The text of a byte count: whole bytes below 1 KB (`512 B`); otherwise the
/// value in KB, MB or GB with one decimal, as `{:.1}` prints the `f64`
/// quotient: the exact quotient rounded to tenths, ties to even (`1.5 KB`).
pub open spec fn size_text(bytes: nat) -> Seq<char> {
    if bytes < 1024 {
        decimal(bytes) + seq![' ', 'B']
    } else {
        let (unit, suffix) = size_unit(bytes);
        let tenths = round_half_even(10 * as_f64_value(bytes), unit);
        decimal(tenths / 10) + seq!['.', digit_char(tenths % 10)] + suffix
    }
}

proof fn lemma_div_mod_bounds(n: nat, d: nat)
    requires
        d > 0,
    ensures
        n == d * (n / d) + n % d,
        n % d < d,
        d * (n / d) <= n,
{
    vstd::arithmetic::div_mod::lemma_fundamental_div_mod(n as int, d as int);
    vstd::arithmetic::div_mod::lemma_mod_pos_bound(n as int, d as int);
}

/// `n as f64`, as the integer it equals.
fn f64_value(n: u64) -> (v: u128)
    ensures
        v == as_f64_value(n as nat),
        v <= 0x1_0000_0000_0000_1000,
{
    let mut m: u64 = n;
    let mut d: u64 = 1;
    while m >= 0x20_0000_0000_0000
        invariant
            d >= 1,
            m == n as nat / d as nat,
            d * f64_scale(m as nat) == f64_scale(n as nat),
            d * 0x20_0000_0000_0000 <= 2 * (n as nat) || d == 1,
        decreases m,
    {
        proof {
            lemma_div_mod_bounds(n as nat, d as nat);
            assert(d * m <= n);
            assert(d * 0x20_0000_0000_0000 <= d * m) by (nonlinear_arith)
                requires
                    m >= 0x20_0000_0000_0000,
                    d >= 1,
            ;
            assert(d < 0x1000);
            vstd::arithmetic::div_mod::lemma_div_denominator(n as int, d as int, 2);
            assert(f64_scale(m as nat) == 2 * f64_scale((m / 2) as nat));
            assert(d * f64_scale(m as nat) == (d * 2) * f64_scale((m / 2) as nat)) by (
            nonlinear_arith)
                requires
                    f64_scale(m as nat) == 2 * f64_scale((m / 2) as nat),
            ;
            assert((d * 2) * 0x20_0000_0000_0000 <= 2 * (n as nat)) by (nonlinear_arith)
                requires
                    d * 0x20_0000_0000_0000 <= d * m,
                    d * m <= n,
            ;
        }
        m = m / 2;
        d = d * 2;
    }
    proof {
        assert(f64_scale(m as nat) == 1);
        assert(d * f64_scale(m as nat) == d) by (nonlinear_arith)
            requires
                f64_scale(m as nat) == 1,
        ;
        assert(d == f64_scale(n as nat));
        lemma_div_mod_bounds(n as nat, d as nat);
        if d > 1 {
            assert(d * 0x20_0000_0000_0000 <= 2 * (n as nat));
            assert(d <= 0x1000);
        }
    }
    let q = n / d;
    let r = n % d;
    let rounded: u64 = if 2 * (r as u128) > d as u128 || (2 * (r as u128) == d as u128 && q % 2
        == 1) {
        q + 1
    } else {
        q
    };
    proof {
        assert(rounded == round_half_even(n as nat, d as nat));
        assert(q < 0x20_0000_0000_0000);
        assert(d * q <= n);
        assert((rounded as nat) * (d as nat) <= n as nat + d as nat) by (nonlinear_arith)
            requires
                rounded <= q + 1,
                d * q <= n,
        ;
        assert(d <= 0x1000);
    }
    (rounded as u128) * (d as u128)
}

/// Format a byte count for display, e.g. `512 B`, `1.5 KB`, `2.0 MB`.
pub fn format_size(bytes: u64) -> (res: String)
    ensures
        res@ == size_text(bytes as nat),
{
    let mut out = String::new();
    if bytes < 1024 {
        push_decimal(&mut out, bytes);
        push_char(&mut out, ' ');
        push_char(&mut out, 'B');
        proof {
            assert(out@ =~= size_text(bytes as nat));
        }
        return out;
    }
    let (unit, letter): (u128, char) = if bytes < 0x10_0000 {
        (0x400, 'K')
    } else if bytes < 0x4000_0000 {
        (0x10_0000, 'M')
    } else {
        (0x4000_0000, 'G')
    };
    let v = f64_value(bytes);
    let num = v * 10;
    let q = num / unit;
    let r = num % unit;
    let tenths = if 2 * r > unit || (2 * r == unit && q % 2 == 1) {
        q + 1
    } else {
        q
    };
    proof {
        let (u, _) = size_unit(bytes as nat);
        assert(u == unit);
        assert(tenths == round_half_even(10 * as_f64_value(bytes as nat), unit as nat));
        assert(q <= num / 0x400) by {
            vstd::arithmetic::div_mod::lemma_div_is_ordered_by_denominator(
                num as int,
                0x400,
                unit as int,
            );
        }
        assert(num / 0x400 <= 0x1_0000_0000_0000_1000 * 10 / 0x400) by {
            vstd::arithmetic::div_mod::lemma_div_is_ordered(
                num as int,
                0x1_0000_0000_0000_1000int * 10,
                0x400,
            );
        }
    }
    push_decimal(&mut out, (tenths / 10) as u64);
    push_char(&mut out, '.');
    push_char(&mut out, digit((tenths % 10) as u64));
    push_char(&mut out, ' ');
    push_char(&mut out, letter);
    push_char(&mut out, 'B');
    proof {
        let (u, suffix) = size_unit(bytes as nat);
        assert(suffix == seq![' ', letter, 'B']);
        assert(out@ =~= size_text(bytes as nat));
    }
    out
}

/// A trailing newline does not add a phantom line: ending a non-empty text
/// that has no final newline with one leaves the line count unchanged, and
/// the empty text has no words, characters or lines.
pub proof fn law_trailing_newline_adds_no_line(s: Seq<char>)
    requires
        s.len() > 0,
        s.last() != '\n',
    ensures
        line_count(s.push('\n')) == line_count(s),
        word_count(s.push('\n')) == word_count(s),
        word_count(Seq::<char>::empty()) == 0,
        line_count(Seq::<char>::empty()) == 0,
{
    assert(s.push('\n').drop_last() =~= s);
    assert(is_white('\n'));
}

/// A cached file counts as changed exactly when its size differs or its
/// modified time differs in any part (seconds or nanoseconds, or one of the
/// two missing); it always counts as changed when nothing is cached or its
/// metadata can't be read.
pub proof fn law_change_is_any_difference_in_size_or_time(
    c: QuickInfo,
    size: u64,
    modified: Option<Timestamp>,
)
    ensures
        stats_differ(Some(c), Some((size, modified))) <==> (size != c.size || match (
            modified,
            c.modified,
        ) {
            (Some(a), Some(b)) => a.secs != b.secs || a.nanos != b.nanos,
            (None, None) => false,
            _ => true,
        }),
        stats_differ(None, Some((size, modified))),
        stats_differ(Some(c), None),
{
}

} // verus!
