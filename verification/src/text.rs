//! Source-text primitives: whitespace tokenization, token classification
//! helpers, and decimal integer literals, each with a mathematical model
//! over `Seq<char>`.

use vstd::prelude::*;

verus! {

/// Whitespace for the purpose of tokenization.
pub open spec fn is_space(c: char) -> bool {
    c == ' ' || c == '\t' || c == '\r' || c == '\n'
}

/// Index of the first whitespace character at or after `i`, or `s.len()`.
pub open spec fn token_end(s: Seq<char>, i: int) -> int
    decreases s.len() - i,
{
    if i < 0 || i >= s.len() || is_space(s[i]) {
        i
    } else {
        token_end(s, i + 1)
    }
}

proof fn lemma_token_end(s: Seq<char>, i: int)
    requires
        0 <= i <= s.len(),
    ensures
        i <= token_end(s, i) <= s.len(),
        forall|k: int| i <= k < token_end(s, i) ==> !is_space(#[trigger] s[k]),
        token_end(s, i) == s.len() || is_space(s[token_end(s, i)]),
    decreases s.len() - i,
{
    if i < s.len() && !is_space(s[i]) {
        lemma_token_end(s, i + 1);
    }
}

/// A run of non-whitespace characters ending at whitespace or at the end of
/// the text is exactly the run that `token_end` designates.
proof fn lemma_token_end_unique(s: Seq<char>, i: int, j: int)
    requires
        0 <= i <= j <= s.len(),
        forall|k: int| i <= k < j ==> !is_space(#[trigger] s[k]),
        j == s.len() || is_space(s[j]),
    ensures
        token_end(s, i) == j,
    decreases j - i,
{
    if i < j {
        lemma_token_end_unique(s, i + 1, j);
    }
}

/// The whitespace-separated tokens of `s`, from position `i` on.
pub open spec fn tokens_from(s: Seq<char>, i: int) -> Seq<Seq<char>>
    decreases s.len() - i,
    when 0 <= i
    via tokens_from_decreases
{
    if i >= s.len() {
        Seq::empty()
    } else if is_space(s[i]) {
        tokens_from(s, i + 1)
    } else {
        seq![s.subrange(i, token_end(s, i))] + tokens_from(s, token_end(s, i))
    }
}

#[via_fn]
proof fn tokens_from_decreases(s: Seq<char>, i: int) {
    if 0 <= i < s.len() && !is_space(s[i]) {
        lemma_token_end(s, i);
        assert(token_end(s, i) > i);
    }
}

/// The tokens of one whole source line.
pub open spec fn line_tokens(s: Seq<char>) -> Seq<Seq<char>> {
    tokens_from(s, 0)
}

/// A token that begins the line comment: everything from it to the end of
/// the line is ignored.
pub open spec fn is_comment_token(t: Seq<char>) -> bool {
    t.len() > 0 && t[0] == ';'
}

/// Index of the first label-definition marker in `t`, or `t.len()`.
pub open spec fn first_colon_from(t: Seq<char>, i: int) -> int
    decreases t.len() - i,
{
    if i < 0 || i >= t.len() || t[i] == ':' {
        i
    } else {
        first_colon_from(t, i + 1)
    }
}

/// A token that defines a label: it contains the marker `:` somewhere.
pub open spec fn is_label_token(t: Seq<char>) -> bool {
    first_colon_from(t, 0) < t.len()
}

/// The name a label token defines: everything before its first `:`.
pub open spec fn label_name(t: Seq<char>) -> Seq<char> {
    t.subrange(0, first_colon_from(t, 0))
}

proof fn lemma_first_colon_unique(t: Seq<char>, i: int, j: int)
    requires
        0 <= i <= j <= t.len(),
        forall|k: int| i <= k < j ==> #[trigger] t[k] != ':',
        j == t.len() || t[j] == ':',
    ensures
        first_colon_from(t, i) == j,
    decreases j - i,
{
    if i < j {
        lemma_first_colon_unique(t, i + 1, j);
    }
}

/// Tells whether `t` starts the line comment.
pub fn comment_starts(t: &str) -> (r: bool)
    ensures
        r == is_comment_token(t@),
{
    if t.is_empty() {
        false
    } else {
        t.get_char(0) == ';'
    }
}

/// If `t` defines a label, returns the defined name; otherwise `None`.
pub fn label_def_name(t: &str) -> (r: Option<String>)
    ensures
        match r {
            Some(name) => is_label_token(t@) && name@ == label_name(t@),
            None => !is_label_token(t@),
        },
{
    let n: usize = t.unicode_len();
    let mut j: usize = 0;
    while j < n
        invariant_except_break
            n == t@.len(),
            0 <= j <= n,
            forall|k: int| 0 <= k < j ==> #[trigger] t@[k] != ':',
        ensures
            0 <= j <= n,
            forall|k: int| 0 <= k < j ==> #[trigger] t@[k] != ':',
            j == n || t@[j as int] == ':',
        decreases n - j,
    {
        if t.get_char(j) == ':' {
            break;
        }
        j = j + 1;
    }
    proof {
        lemma_first_colon_unique(t@, 0, j as int);
    }
    if j < n {
        Some(t.substring_char(0, j).to_owned())
    } else {
        None
    }
}

fn is_space_char(c: char) -> (r: bool)
    ensures
        r == is_space(c),
{
    c == ' ' || c == '\t' || c == '\r' || c == '\n'
}

/// Character-for-character string comparison, proved equivalent to equality
/// of the views.
pub fn str_eq(a: &str, b: &str) -> (r: bool)
    ensures
        r == (a@ == b@),
{
    let na: usize = a.unicode_len();
    let nb: usize = b.unicode_len();
    if na != nb {
        return false;
    }
    let mut i: usize = 0;
    while i < na
        invariant
            na == a@.len(),
            na == b@.len(),
            0 <= i <= na,
            forall|k: int| 0 <= k < i ==> a@[k] == b@[k],
        decreases na - i,
    {
        if a.get_char(i) != b.get_char(i) {
            return false;
        }
        i = i + 1;
    }
    proof {
        assert(a@ =~= b@);
    }
    true
}

pub open spec fn is_digit(c: char) -> bool {
    48 <= c as u32 <= 57
}

/// Numeric value of one decimal digit.
pub open spec fn digit_val(c: char) -> int {
    c as u32 - 48
}

pub open spec fn all_digits(s: Seq<char>) -> bool {
    forall|k: int| 0 <= k < s.len() ==> is_digit(#[trigger] s[k])
}

/// Value of a string of decimal digits, most significant first.
pub open spec fn digits_val(s: Seq<char>) -> int
    decreases s.len(),
{
    if s.len() == 0 {
        0
    } else {
        digits_val(s.drop_last()) * 10 + digit_val(s.last())
    }
}

/// A decimal integer literal: an optional minus sign, then one or more digits.
pub open spec fn is_number_token(t: Seq<char>) -> bool {
    if t.len() > 0 && t[0] == '-' {
        t.len() > 1 && all_digits(t.subrange(1, t.len() as int))
    } else {
        t.len() > 0 && all_digits(t)
    }
}

/// The value a decimal integer literal denotes.
pub open spec fn number_value(t: Seq<char>) -> int {
    if t.len() > 0 && t[0] == '-' {
        -digits_val(t.subrange(1, t.len() as int))
    } else {
        digits_val(t)
    }
}

/// A literal that can stand as an immediate operand: it must denote a value
/// that fits in a machine word.
pub open spec fn is_immediate_token(t: Seq<char>) -> bool {
    is_number_token(t) && i64::MIN <= number_value(t) <= i64::MAX
}

proof fn lemma_digits_val_nonneg(s: Seq<char>)
    requires
        all_digits(s),
    ensures
        digits_val(s) >= 0,
    decreases s.len(),
{
    if s.len() > 0 {
        assert(all_digits(s.drop_last()));
        lemma_digits_val_nonneg(s.drop_last());
    }
}

/// Parses a decimal integer literal, reporting exactly the tokens that denote
/// a machine-word value.
pub fn parse_int(t: &str) -> (r: Option<i64>)
    ensures
        match r {
            Some(v) => is_immediate_token(t@) && v == number_value(t@),
            None => !is_immediate_token(t@),
        },
{
    let n: usize = t.unicode_len();
    if n == 0 {
        return None;
    }
    let neg: bool = t.get_char(0) == '-';
    let start: usize = if neg {
        1
    } else {
        0
    };
    if start == n {
        return None;
    }
    let ghost digits = t@.subrange(start as int, n as int);
    let bound: i128 = i64::MAX as i128 + 1;
    let mut acc: i128 = 0;
    let mut big: bool = false;
    let mut i: usize = start;
    while i < n
        invariant
            n == t@.len(),
            start <= i <= n,
            start < n,
            neg == (t@[0] == '-'),
            start == if neg {
                1int
            } else {
                0int
            },
            bound == i64::MAX as i128 + 1,
            digits == t@.subrange(start as int, n as int),
            all_digits(t@.subrange(start as int, i as int)),
            big ==> digits_val(t@.subrange(start as int, i as int)) > bound,
            !big ==> acc == digits_val(t@.subrange(start as int, i as int)) && 0 <= acc <= bound,
        decreases n - i,
    {
        let c: char = t.get_char(i);
        let u: u32 = c as u32;
        if !(48 <= u && u <= 57) {
            proof {
                assert(!is_digit(t@[i as int]));
                if neg {
                    assert(t@.subrange(1, n as int)[i - 1] == t@[i as int]);
                }
            }
            return None;
        }
        let ghost pre = t@.subrange(start as int, i as int);
        let ghost pre2 = t@.subrange(start as int, (i as int) + 1);
        proof {
            assert(pre2.drop_last() =~= pre);
            assert(pre2.last() == t@[i as int]);
            assert(all_digits(pre2)) by {
                assert(forall|k: int|
                    0 <= k < pre.len() ==> #[trigger] pre2[k] == pre[k] && is_digit(pre[k]));
            }
            lemma_digits_val_nonneg(pre);
            assert(digits_val(pre2) == digits_val(pre) * 10 + digit_val(t@[i as int]));
        }
        if big {
            proof {
                assert(digits_val(pre) * 10 >= digits_val(pre)) by (nonlinear_arith)
                    requires
                        digits_val(pre) >= 0,
                ;
            }
        } else {
            let d: i128 = (u - 48) as i128;
            acc = acc * 10 + d;
            if acc > bound {
                big = true;
            }
        }
        i = i + 1;
    }
    proof {
        assert(t@.subrange(start as int, i as int) =~= digits);
        if !neg {
            assert(digits =~= t@);
        }
        assert(is_number_token(t@));
    }
    if big {
        return None;
    }
    if neg {
        if acc == bound {
            Some(i64::MIN)
        } else {
            Some(-(acc as i64))
        }
    } else {
        if acc == bound {
            None
        } else {
            Some(acc as i64)
        }
    }
}

/// Splits `line` into its whitespace-separated tokens.
pub fn tokenize(line: &str) -> (r: Vec<String>)
    ensures
        r.deep_view() == line_tokens(line@),
{
    let n: usize = line.unicode_len();
    let mut out: Vec<String> = Vec::new();
    let mut i: usize = 0;
    while i < n
        invariant
            n == line@.len(),
            0 <= i <= n,
            line_tokens(line@) == out.deep_view() + tokens_from(line@, i as int),
        decreases n - i,
    {
        if is_space_char(line.get_char(i)) {
            i = i + 1;
        } else {
            let start: usize = i;
            let mut j: usize = i + 1;
            while j < n
                invariant_except_break
                    n == line@.len(),
                    start < j <= n,
                    forall|k: int| start <= k < j ==> !is_space(#[trigger] line@[k]),
                ensures
                    start < j <= n,
                    forall|k: int| start <= k < j ==> !is_space(#[trigger] line@[k]),
                    j == n || is_space(line@[j as int]),
                decreases n - j,
            {
                if is_space_char(line.get_char(j)) {
                    break;
                }
                j = j + 1;
            }
            proof {
                lemma_token_end_unique(line@, start as int, j as int);
            }
            let tok: String = line.substring_char(start, j).to_owned();
            let ghost prev = out.deep_view();
            out.push(tok);
            proof {
                assert(out.deep_view() =~= prev.push(line@.subrange(start as int, j as int)));
                assert(prev + tokens_from(line@, i as int) =~= out.deep_view() + tokens_from(
                    line@,
                    j as int,
                ));
            }
            i = j;
        }
    }
    proof {
        assert(line_tokens(line@) =~= out.deep_view());
    }
    out
}

} // verus!
