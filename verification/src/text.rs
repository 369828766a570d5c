//! Character-level helpers shared by the scanner and the parser.
//!
//! Each executable helper carries a contract stating that it computes the
//! matching spec function, so the scanner and parser contracts can be
//! phrased entirely over mathematical sequences of characters.

use vstd::prelude::*;

verus! {

/// Whitespace inside a makefile line: a space or a tab.
pub open spec fn is_ws(c: char) -> bool {
    c == ' ' || c == '\t'
}

/// Index of the first occurrence of `c` in `s`, or -1 when absent.
pub open spec fn first_index(s: Seq<char>, c: char) -> int
    decreases s.len(),
{
    if s.len() == 0 {
        -1
    } else if s[0] == c {
        0
    } else {
        let r = first_index(s.skip(1), c);
        if r == -1 {
            -1
        } else {
            r + 1
        }
    }
}

/// Index of the first unescaped occurrence of `c` in `s`, or -1 when
/// absent. A backslash escapes the character that follows it.
pub open spec fn first_unescaped(s: Seq<char>, c: char) -> int
    decreases s.len(),
{
    if s.len() == 0 {
        -1
    } else if s[0] == '\\' {
        if s.len() == 1 {
            -1
        } else {
            let r = first_unescaped(s.skip(2), c);
            if r == -1 {
                -1
            } else {
                r + 2
            }
        }
    } else if s[0] == c {
        0
    } else {
        let r = first_unescaped(s.skip(1), c);
        if r == -1 {
            -1
        } else {
            r + 1
        }
    }
}

/// Index of the first character that is not a space or tab, or -1 when
/// the line is all whitespace.
pub open spec fn first_non_ws(s: Seq<char>) -> int
    decreases s.len(),
{
    if s.len() == 0 {
        -1
    } else if !is_ws(s[0]) {
        0
    } else {
        let r = first_non_ws(s.skip(1));
        if r == -1 {
            -1
        } else {
            r + 1
        }
    }
}

/// Number of consecutive backslashes at the end of `s`.
pub open spec fn trailing_backslashes(s: Seq<char>) -> nat
    decreases s.len(),
{
    if s.len() == 0 || s.last() != '\\' {
        0
    } else {
        1 + trailing_backslashes(s.drop_last())
    }
}

/// A physical line ends in an unescaped backslash, and so continues onto
/// the next physical line, exactly when its trailing backslash run has
/// odd length.
pub open spec fn is_cont(s: Seq<char>) -> bool {
    trailing_backslashes(s) % 2 == 1
}

/// Length of the whitespace-delimited token starting at the head of `s`,
/// where a backslash escapes the following character (so escaped
/// whitespace stays inside the token).
pub open spec fn token_len(s: Seq<char>) -> nat
    decreases s.len(),
{
    if s.len() == 0 {
        0
    } else if is_ws(s[0]) {
        0
    } else if s[0] == '\\' && s.len() >= 2 {
        2 + token_len(s.skip(2))
    } else {
        1 + token_len(s.skip(1))
    }
}

/// `s` split into tokens on unescaped whitespace, in textual order.
pub open spec fn split_ws(s: Seq<char>) -> Seq<Seq<char>>
    decreases s.len(),
    via split_ws_decreases
{
    if s.len() == 0 {
        Seq::empty()
    } else if is_ws(s[0]) {
        split_ws(s.skip(1))
    } else {
        seq![s.take(token_len(s) as int)] + split_ws(s.skip(token_len(s) as int))
    }
}

/// The token at the head of `s` is nonempty when `s` starts with a
/// non-whitespace character, and never runs past the end of `s`.
pub proof fn lemma_token_len_bounds(s: Seq<char>)
    ensures
        token_len(s) <= s.len(),
        s.len() > 0 && !is_ws(s[0]) ==> token_len(s) >= 1,
    decreases s.len(),
{
    if s.len() == 0 {
    } else if is_ws(s[0]) {
    } else if s[0] == '\\' && s.len() >= 2 {
        lemma_token_len_bounds(s.skip(2));
    } else {
        lemma_token_len_bounds(s.skip(1));
    }
}

#[via_fn]
proof fn split_ws_decreases(s: Seq<char>) {
    lemma_token_len_bounds(s);
}

/// `s` without leading whitespace.
pub open spec fn trim_left(s: Seq<char>) -> Seq<char>
    decreases s.len(),
{
    if s.len() == 0 {
        s
    } else if is_ws(s[0]) {
        trim_left(s.skip(1))
    } else {
        s
    }
}

/// `s` without trailing whitespace.
pub open spec fn trim_right(s: Seq<char>) -> Seq<char>
    decreases s.len(),
{
    if s.len() == 0 {
        s
    } else if is_ws(s.last()) {
        trim_right(s.drop_last())
    } else {
        s
    }
}

/// `s` without leading and trailing whitespace.
pub open spec fn trim(s: Seq<char>) -> Seq<char> {
    trim_right(trim_left(s))
}

/// The decimal digit character for `d`, meaningful for `d < 10`.
pub open spec fn digit_char(d: nat) -> char {
    if d == 0 {
        '0'
    } else if d == 1 {
        '1'
    } else if d == 2 {
        '2'
    } else if d == 3 {
        '3'
    } else if d == 4 {
        '4'
    } else if d == 5 {
        '5'
    } else if d == 6 {
        '6'
    } else if d == 7 {
        '7'
    } else if d == 8 {
        '8'
    } else {
        '9'
    }
}

/// The decimal rendering of `n`, most significant digit first, with no
/// sign and no leading zeroes (`0` renders as "0").
pub open spec fn dec_digits(n: nat) -> Seq<char>
    decreases n,
{
    if n < 10 {
        seq![digit_char(n)]
    } else {
        dec_digits(n / 10).push(digit_char(n % 10))
    }
}

/// Relies on the `Display` implementation for `usize` in std, which
/// renders the value in decimal with no sign, padding, or separators.
#[verifier::external_body]
pub(crate) fn render_usize(n: usize) -> (r: String)
    ensures
        r@ == dec_digits(n as nat),
{
    format!("{}", n)
}

/// Finds the first occurrence of `c` in `s` at or after position `i`.
pub fn find_char_at(s: &str, c: char, i: usize) -> (r: Option<usize>)
    requires
        i <= s@.len(),
    ensures
        match r {
            Option::None => first_index(s@.skip(i as int), c) == -1,
            Option::Some(j) => i <= j < s@.len() && first_index(s@.skip(i as int), c) == j - i,
        },
    decreases s@.len() - i,
{
    if i >= s.unicode_len() {
        assert(s@.skip(i as int) =~= Seq::<char>::empty());
        None
    } else {
        let ch = s.get_char(i);
        assert(s@.skip(i as int)[0] == s@[i as int]);
        if ch == c {
            Some(i)
        } else {
            assert(s@.skip(i as int).skip(1) =~= s@.skip(i + 1));
            find_char_at(s, c, i + 1)
        }
    }
}

/// Finds the first unescaped occurrence of `c` in `s` at or after
/// position `i`, where `i` does not point into an escape pair.
pub fn find_unescaped_at(s: &str, c: char, i: usize) -> (r: Option<usize>)
    requires
        i <= s@.len(),
    ensures
        match r {
            Option::None => first_unescaped(s@.skip(i as int), c) == -1,
            Option::Some(j) => i <= j < s@.len() && first_unescaped(s@.skip(i as int), c) == j
                - i,
        },
    decreases s@.len() - i,
{
    if i >= s.unicode_len() {
        assert(s@.skip(i as int) =~= Seq::<char>::empty());
        None
    } else {
        let ch = s.get_char(i);
        assert(s@.skip(i as int)[0] == s@[i as int]);
        if ch == '\\' {
            if i + 1 >= s.unicode_len() {
                assert(s@.skip(i as int).len() == 1);
                None
            } else {
                assert(s@.skip(i as int).skip(2) =~= s@.skip(i + 2));
                find_unescaped_at(s, c, i + 2)
            }
        } else if ch == c {
            Some(i)
        } else {
            assert(s@.skip(i as int).skip(1) =~= s@.skip(i + 1));
            find_unescaped_at(s, c, i + 1)
        }
    }
}

/// Finds the first non-whitespace character in `s` at or after `i`.
pub fn first_non_ws_at(s: &str, i: usize) -> (r: Option<usize>)
    requires
        i <= s@.len(),
    ensures
        match r {
            Option::None => first_non_ws(s@.skip(i as int)) == -1,
            Option::Some(j) => i <= j < s@.len() && first_non_ws(s@.skip(i as int)) == j - i
                && !is_ws(s@[j as int]),
        },
    decreases s@.len() - i,
{
    if i >= s.unicode_len() {
        assert(s@.skip(i as int) =~= Seq::<char>::empty());
        None
    } else {
        let ch = s.get_char(i);
        assert(s@.skip(i as int)[0] == s@[i as int]);
        if ch != ' ' && ch != '\t' {
            Some(i)
        } else {
            assert(s@.skip(i as int).skip(1) =~= s@.skip(i + 1));
            first_non_ws_at(s, i + 1)
        }
    }
}

/// Counts the trailing backslashes of the prefix `s[..j]`.
pub fn trailing_backslashes_prefix(s: &str, j: usize) -> (r: usize)
    requires
        j <= s@.len(),
    ensures
        r == trailing_backslashes(s@.take(j as int)),
        r <= j,
    decreases j,
{
    if j == 0 {
        assert(s@.take(0).len() == 0);
        0
    } else {
        let ch = s.get_char(j - 1);
        assert(s@.take(j as int).last() == s@[j - 1]);
        if ch == '\\' {
            assert(s@.take(j as int).drop_last() =~= s@.take(j - 1));
            let r = trailing_backslashes_prefix(s, j - 1);
            r + 1
        } else {
            0
        }
    }
}

/// Reports whether the physical line `s` continues onto the next line.
pub fn ends_in_continuation(s: &str) -> (r: bool)
    ensures
        r == is_cont(s@),
{
    let n = s.unicode_len();
    let tb = trailing_backslashes_prefix(s, n);
    assert(s@.take(s@.len() as int) =~= s@);
    tb % 2 == 1
}

/// Length of the token starting at position `i` of `s`.
pub fn token_len_at(s: &str, i: usize) -> (r: usize)
    requires
        i <= s@.len(),
    ensures
        r == token_len(s@.skip(i as int)),
        i + r <= s@.len(),
    decreases s@.len() - i,
{
    if i >= s.unicode_len() {
        assert(s@.skip(i as int) =~= Seq::<char>::empty());
        0
    } else {
        let ch = s.get_char(i);
        assert(s@.skip(i as int)[0] == s@[i as int]);
        if ch == ' ' || ch == '\t' {
            0
        } else if ch == '\\' && i + 1 < s.unicode_len() {
            assert(s@.skip(i as int).len() >= 2);
            assert(s@.skip(i as int).skip(2) =~= s@.skip(i + 2));
            let r = token_len_at(s, i + 2);
            r + 2
        } else {
            assert(s@.skip(i as int).skip(1) =~= s@.skip(i + 1));
            let r = token_len_at(s, i + 1);
            r + 1
        }
    }
}

/// Splits `s` into tokens on unescaped whitespace.
pub fn split_ws_str(s: &str) -> (r: Vec<String>)
    ensures
        r.deep_view() == split_ws(s@),
{
    let mut out: Vec<String> = Vec::new();
    let mut i: usize = 0;
    let n = s.unicode_len();
    assert(s@.skip(0) =~= s@);
    assert(out.deep_view() + split_ws(s@) =~= split_ws(s@));
    while i < n
        invariant
            i <= n,
            n == s@.len(),
            split_ws(s@) == out.deep_view() + split_ws(s@.skip(i as int)),
        decreases n - i,
    {
        let ch = s.get_char(i);
        assert(s@.skip(i as int)[0] == s@[i as int]);
        if ch == ' ' || ch == '\t' {
            assert(s@.skip(i as int).skip(1) =~= s@.skip(i + 1));
            i = i + 1;
        } else {
            let tl = token_len_at(s, i);
            assert(tl >= 1) by {
                assert(token_len(s@.skip(i as int)) >= 1);
            }
            let tok = s.substring_char(i, i + tl);
            let ghost old_deep = out.deep_view();
            out.push(tok.to_owned());
            proof {
                assert(out.deep_view() =~= old_deep.push(tok@));
                assert(s@.skip(i as int).take(tl as int) =~= s@.subrange(
                    i as int,
                    i + tl,
                ));
                assert(s@.skip(i as int).skip(tl as int) =~= s@.skip(i + tl));
                assert(split_ws(s@.skip(i as int)) == seq![s@.subrange(i as int, i + tl)]
                    + split_ws(s@.skip(i + tl)));
                assert(split_ws(s@) =~= out.deep_view() + split_ws(s@.skip(i + tl)));
            }
            i = i + tl;
        }
    }
    assert(s@.skip(i as int) =~= Seq::<char>::empty());
    assert(split_ws(s@) =~= out.deep_view());
    out
}

/// Advances `i` past whitespace, staying below `b`; the trimmed-left view
/// of `s[i..b]` is exactly `s[r..b]`.
pub fn skip_ws_between(s: &str, i: usize, b: usize) -> (r: usize)
    requires
        i <= b <= s@.len(),
    ensures
        i <= r <= b,
        trim_left(s@.subrange(i as int, b as int)) == s@.subrange(r as int, b as int),
        r < b ==> !is_ws(s@[r as int]),
    decreases b - i,
{
    if i >= b {
        assert(s@.subrange(i as int, b as int) =~= s@.subrange(b as int, b as int));
        b
    } else {
        let ch = s.get_char(i);
        assert(s@.subrange(i as int, b as int)[0] == s@[i as int]);
        if ch == ' ' || ch == '\t' {
            assert(s@.subrange(i as int, b as int).skip(1) =~= s@.subrange(i + 1, b as int));
            skip_ws_between(s, i + 1, b)
        } else {
            i
        }
    }
}

/// Retreats `b` past trailing whitespace, staying above `i`; the
/// trimmed-right view of `s[i..b]` is exactly `s[i..r]`.
pub fn rskip_ws_between(s: &str, i: usize, b: usize) -> (r: usize)
    requires
        i <= b <= s@.len(),
    ensures
        i <= r <= b,
        trim_right(s@.subrange(i as int, b as int)) == s@.subrange(i as int, r as int),
    decreases b - i,
{
    if b <= i {
        b
    } else {
        let ch = s.get_char(b - 1);
        assert(s@.subrange(i as int, b as int).last() == s@[b - 1]);
        if ch == ' ' || ch == '\t' {
            assert(s@.subrange(i as int, b as int).drop_last() =~= s@.subrange(
                i as int,
                b - 1,
            ));
            rskip_ws_between(s, i, b - 1)
        } else {
            b
        }
    }
}

/// The substring `s[a..b]` with surrounding whitespace removed, as an
/// owned string.
pub fn trim_substring(s: &str, a: usize, b: usize) -> (r: String)
    requires
        a <= b <= s@.len(),
    ensures
        r@ == trim(s@.subrange(a as int, b as int)),
{
    let f = skip_ws_between(s, a, b);
    let t = rskip_ws_between(s, f, b);
    let sub = s.substring_char(f, t);
    sub.to_owned()
}

} // verus!
