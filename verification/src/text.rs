//! Character-sequence utilities shared by the expression parser and the
//! renderers: whitespace tokenization, splitting and joining on a literal
//! separator, trimming, and decimal digits.
//!
//! All logic works on `Vec<char>` / `Seq<char>`; `String` and `&str` appear
//! only at the crate boundary.

use vstd::prelude::*;
use vstd::slice::{slice_subrange, slice_to_vec};

verus! {

/// The whitespace characters the tokenizer recognizes (ASCII whitespace).
pub open spec fn is_ws(c: char) -> bool {
    c == ' ' || c == '\t' || c == '\n' || c == '\r'
}

/// Executable test for [`is_ws`].
pub fn is_ws_char(c: char) -> (r: bool)
    ensures
        r == is_ws(c),
{
    c == ' ' || c == '\t' || c == '\n' || c == '\r'
}

/// True when no character of `s` is whitespace.
pub open spec fn no_ws(s: Seq<char>) -> bool {
    forall|i: int| 0 <= i < s.len() ==> !is_ws(#[trigger] s[i])
}

/// True when every character of `s` is whitespace.
pub open spec fn all_ws(s: Seq<char>) -> bool {
    forall|i: int| 0 <= i < s.len() ==> is_ws(#[trigger] s[i])
}

/// Length of the leading whitespace run of `s`.
pub open spec fn ws_run_len(s: Seq<char>) -> int
    decreases s.len(),
{
    if s.len() == 0 {
        0
    } else if is_ws(s[0]) {
        1 + ws_run_len(s.drop_first())
    } else {
        0
    }
}

/// Length of the trailing whitespace run of `s`.
pub open spec fn ws_run_len_rev(s: Seq<char>) -> int
    decreases s.len(),
{
    if s.len() == 0 {
        0
    } else if is_ws(s.last()) {
        1 + ws_run_len_rev(s.drop_last())
    } else {
        0
    }
}

/// Length of the leading run of non-whitespace characters of `s`.
pub open spec fn token_run_len(s: Seq<char>) -> int
    decreases s.len(),
{
    if s.len() == 0 {
        0
    } else if !is_ws(s[0]) {
        1 + token_run_len(s.drop_first())
    } else {
        0
    }
}

pub proof fn lemma_ws_run_len(s: Seq<char>)
    ensures
        0 <= ws_run_len(s) <= s.len(),
        forall|i: int| 0 <= i < ws_run_len(s) ==> is_ws(#[trigger] s[i]),
        ws_run_len(s) < s.len() ==> !is_ws(s[ws_run_len(s)]),
    decreases s.len(),
{
    if s.len() > 0 && is_ws(s[0]) {
        lemma_ws_run_len(s.drop_first());
        assert forall|i: int| 0 <= i < ws_run_len(s) implies is_ws(#[trigger] s[i]) by {
            if i > 0 {
                assert(s.drop_first()[i - 1] == s[i]);
            }
        }
        if ws_run_len(s) < s.len() {
            assert(s.drop_first()[ws_run_len(s) - 1] == s[ws_run_len(s)]);
        }
    }
}

pub proof fn lemma_ws_run_len_rev(s: Seq<char>)
    ensures
        0 <= ws_run_len_rev(s) <= s.len(),
        forall|i: int| s.len() - ws_run_len_rev(s) <= i < s.len() ==> is_ws(#[trigger] s[i]),
        ws_run_len_rev(s) < s.len() ==> !is_ws(s[s.len() - 1 - ws_run_len_rev(s)]),
    decreases s.len(),
{
    if s.len() > 0 && is_ws(s.last()) {
        lemma_ws_run_len_rev(s.drop_last());
        assert forall|i: int| s.len() - ws_run_len_rev(s) <= i < s.len() implies is_ws(
            #[trigger] s[i],
        ) by {
            if i < s.len() - 1 {
                assert(s.drop_last()[i] == s[i]);
            }
        }
        if ws_run_len_rev(s) < s.len() {
            assert(s.drop_last()[s.len() - 2 - ws_run_len_rev(s.drop_last())] == s[s.len() - 1
                - ws_run_len_rev(s)]);
        }
    }
}

pub proof fn lemma_token_run_len(s: Seq<char>)
    ensures
        0 <= token_run_len(s) <= s.len(),
        forall|i: int| 0 <= i < token_run_len(s) ==> !is_ws(#[trigger] s[i]),
        token_run_len(s) < s.len() ==> is_ws(s[token_run_len(s)]),
    decreases s.len(),
{
    if s.len() > 0 && !is_ws(s[0]) {
        lemma_token_run_len(s.drop_first());
        assert forall|i: int| 0 <= i < token_run_len(s) implies !is_ws(#[trigger] s[i]) by {
            if i > 0 {
                assert(s.drop_first()[i - 1] == s[i]);
            }
        }
        if token_run_len(s) < s.len() {
            assert(s.drop_first()[token_run_len(s) - 1] == s[token_run_len(s)]);
        }
    }
}

/// The maximal whitespace-separated tokens of `s`, in order.
pub open spec fn ws_tokens(s: Seq<char>) -> Seq<Seq<char>>
    decreases s.len(),
    via ws_tokens_decreases
{
    if s.len() == 0 {
        Seq::empty()
    } else if is_ws(s[0]) {
        ws_tokens(s.drop_first())
    } else {
        seq![s.take(token_run_len(s))] + ws_tokens(s.skip(token_run_len(s)))
    }
}

#[via_fn]
proof fn ws_tokens_decreases(s: Seq<char>) {
    if s.len() > 0 && !is_ws(s[0]) {
        lemma_token_run_len(s);
        assert(token_run_len(s) >= 1);
    }
}

/// `s` with leading and trailing whitespace removed.
pub open spec fn trim_spec(s: Seq<char>) -> Seq<char> {
    if ws_run_len(s) == s.len() {
        Seq::empty()
    } else {
        s.subrange(ws_run_len(s), s.len() - ws_run_len_rev(s))
    }
}

pub proof fn lemma_trim_bounds(s: Seq<char>)
    ensures
        ws_run_len(s) < s.len() ==> ws_run_len(s) + ws_run_len_rev(s) < s.len(),
{
    lemma_ws_run_len(s);
    lemma_ws_run_len_rev(s);
    if ws_run_len(s) < s.len() {
        // the first non-whitespace character cannot be part of the trailing run
        if ws_run_len(s) + ws_run_len_rev(s) >= s.len() {
            assert(is_ws(s[ws_run_len(s)]));
        }
    }
}

/// Trimming a sequence without whitespace leaves it unchanged.
pub proof fn lemma_trim_no_ws(s: Seq<char>)
    ensures
        no_ws(s) ==> trim_spec(s) == s,
{
    if no_ws(s) {
        if s.len() == 0 {
            assert(trim_spec(s) =~= s);
        } else {
            assert(!is_ws(s[0]));
            assert(!is_ws(s.last()));
            assert(trim_spec(s) =~= s);
        }
    }
}

/// A whitespace-only sequence has no tokens.
pub proof fn lemma_ws_tokens_all_ws(s: Seq<char>)
    ensures
        all_ws(s) ==> ws_tokens(s) == Seq::<Seq<char>>::empty(),
    decreases s.len(),
{
    if all_ws(s) && s.len() > 0 {
        lemma_ws_tokens_all_ws(s.drop_first());
        assert(all_ws(s.drop_first())) by {
            assert forall|i: int| 0 <= i < s.drop_first().len() implies is_ws(
                #[trigger] s.drop_first()[i],
            ) by {
                assert(s.drop_first()[i] == s[i + 1]);
            }
        }
    }
}

/// A nonempty sequence without whitespace is a single token.
pub proof fn lemma_ws_tokens_single(s: Seq<char>)
    ensures
        s.len() > 0 && no_ws(s) ==> ws_tokens(s) =~= seq![s],
{
    if s.len() > 0 && no_ws(s) {
        lemma_token_run_len(s);
        assert(!is_ws(s[0]));
        assert(token_run_len(s) == s.len()) by {
            if token_run_len(s) < s.len() {
                assert(!is_ws(s[token_run_len(s)]));
            }
        }
        assert(s.take(token_run_len(s)) =~= s);
        assert(s.skip(token_run_len(s)) =~= Seq::<char>::empty());
        assert(ws_tokens(s.skip(token_run_len(s))).len() == 0);
        assert(ws_tokens(s) =~= seq![s]);
    }
}

/// The leading non-whitespace run of a concatenation whose boundary is
/// whitespace-separated stays inside the first operand.
proof fn lemma_token_run_concat(x: Seq<char>, y: Seq<char>)
    requires
        x.len() > 0,
        !is_ws(x[0]),
        y.len() == 0 || is_ws(x.last()) || is_ws(y[0]),
    ensures
        token_run_len(x + y) == token_run_len(x),
    decreases x.len(),
{
    if x.len() == 1 {
        assert((x + y)[0] == x[0]);
        assert((x + y).drop_first() =~= y);
        assert(x.drop_first().len() == 0);
        assert(token_run_len(x.drop_first()) == 0);
        assert(token_run_len(x) == 1);
        if y.len() > 0 {
            assert(x.last() == x[0]);
            assert(is_ws(y[0]));
            assert(token_run_len(y) == 0);
        } else {
            assert(token_run_len(y) == 0);
        }
        assert(token_run_len(x + y) == 1 + token_run_len((x + y).drop_first()));
        assert(token_run_len((x + y).drop_first()) == token_run_len(y));
    } else {
        assert((x + y)[0] == x[0]);
        assert((x + y).drop_first() =~= x.drop_first() + y);
        if !is_ws(x.drop_first()[0]) {
            assert(x.drop_first().last() == x.last());
            lemma_token_run_concat(x.drop_first(), y);
        } else {
            assert((x.drop_first() + y)[0] == x.drop_first()[0]);
            assert(token_run_len(x.drop_first() + y) == 0);
            assert(token_run_len(x.drop_first()) == 0);
        }
        assert(token_run_len(x + y) == 1 + token_run_len(x.drop_first() + y));
        assert(token_run_len(x) == 1 + token_run_len(x.drop_first()));
    }
}

/// Tokens distribute over concatenation when the boundary is whitespace-
/// separated (one side empty, or a whitespace character on either side of
/// the seam).
pub proof fn lemma_ws_tokens_concat(x: Seq<char>, y: Seq<char>)
    requires
        x.len() == 0 || y.len() == 0 || is_ws(x.last()) || is_ws(y[0]),
    ensures
        ws_tokens(x + y) == ws_tokens(x) + ws_tokens(y),
    decreases x.len(),
{
    if x.len() == 0 {
        assert(x + y =~= y);
        assert(ws_tokens(x) + ws_tokens(y) =~= ws_tokens(y));
    } else if is_ws(x[0]) {
        assert((x + y)[0] == x[0]);
        assert((x + y).drop_first() =~= x.drop_first() + y);
        if x.len() > 1 {
            assert(x.drop_first().last() == x.last());
        }
        lemma_ws_tokens_concat(x.drop_first(), y);
    } else {
        lemma_token_run_len(x);
        lemma_token_run_concat(x, y);
        let k = token_run_len(x);
        assert((x + y)[0] == x[0]);
        assert((x + y).take(k) =~= x.take(k));
        assert((x + y).skip(k) =~= x.skip(k) + y);
        if x.skip(k).len() > 0 {
            assert(x.skip(k).last() == x.last());
        }
        lemma_ws_tokens_concat(x.skip(k), y);
        assert(ws_tokens(x + y) =~= ws_tokens(x) + ws_tokens(y));
    }
}

} // verus!

verus! {

/// `sep` occurs in `s` at position `i`.
pub open spec fn match_at(s: Seq<char>, sep: Seq<char>, i: int) -> bool {
    0 <= i && i + sep.len() <= s.len() && s.subrange(i, i + sep.len()) == sep
}

/// Position of the first occurrence of `sep` in `s`, if any.
pub open spec fn find_sep(s: Seq<char>, sep: Seq<char>) -> Option<int>
    decreases s.len(),
    via find_sep_decreases
{
    if s.len() < sep.len() {
        None
    } else if s.take(sep.len() as int) == sep {
        Some(0)
    } else {
        match find_sep(s.drop_first(), sep) {
            Some(i) => Some(i + 1),
            None => None,
        }
    }
}

#[via_fn]
proof fn find_sep_decreases(s: Seq<char>, sep: Seq<char>) {
    if s.len() >= sep.len() && s.take(sep.len() as int) != sep && s.len() == 0 {
        assert(s.take(sep.len() as int) =~= sep);
    }
}

/// `find_sep` returns the least matching position, or `None` when there is
/// no occurrence.
pub proof fn lemma_find_sep(s: Seq<char>, sep: Seq<char>)
    requires
        sep.len() > 0,
    ensures
        match find_sep(s, sep) {
            None => forall|i: int| !match_at(s, sep, i),
            Some(j) => match_at(s, sep, j) && forall|i: int| 0 <= i < j ==> !match_at(s, sep, i),
        },
    decreases s.len(),
{
    if s.len() < sep.len() {
        assert forall|i: int| !match_at(s, sep, i) by {}
    } else if s.take(sep.len() as int) == sep {
        assert(s.subrange(0, sep.len() as int) =~= s.take(sep.len() as int));
    } else {
        lemma_find_sep(s.drop_first(), sep);
        assert forall|i: int| 1 <= i implies (match_at(s, sep, i) <==> match_at(
            s.drop_first(),
            sep,
            i - 1,
        )) by {
            if 1 <= i && i + sep.len() <= s.len() {
                assert(s.subrange(i, i + sep.len()) =~= s.drop_first().subrange(
                    i - 1,
                    i - 1 + sep.len(),
                ));
            }
        }
        assert(!match_at(s, sep, 0)) by {
            assert(s.subrange(0, sep.len() as int) =~= s.take(sep.len() as int));
        }
    }
}

/// A match position with no earlier match is where `find_sep` points.
pub proof fn lemma_find_sep_at(s: Seq<char>, sep: Seq<char>, j: int)
    requires
        sep.len() > 0,
        match_at(s, sep, j),
        forall|i: int| 0 <= i < j ==> !match_at(s, sep, i),
    ensures
        find_sep(s, sep) == Some(j),
{
    lemma_find_sep(s, sep);
    match find_sep(s, sep) {
        None => {
            assert(!match_at(s, sep, j));
        },
        Some(k) => {
            if k < j {
                assert(!match_at(s, sep, k));
            }
            if j < k {
                assert(!match_at(s, sep, j));
            }
        },
    }
}

/// The parts of `s` delimited by `sep`, scanning left to right past each
/// non-overlapping occurrence. A sequence without an occurrence is one part.
pub open spec fn split_sep(s: Seq<char>, sep: Seq<char>) -> Seq<Seq<char>>
    decreases s.len(),
    via split_sep_decreases
{
    if sep.len() == 0 {
        seq![s]
    } else {
        match find_sep(s, sep) {
            None => seq![s],
            Some(i) => seq![s.take(i)] + split_sep(s.skip(i + sep.len()), sep),
        }
    }
}

#[via_fn]
proof fn split_sep_decreases(s: Seq<char>, sep: Seq<char>) {
    if sep.len() > 0 {
        lemma_find_sep(s, sep);
    }
}

/// `parts` interleaved with `sep`.
pub open spec fn join_sep(parts: Seq<Seq<char>>, sep: Seq<char>) -> Seq<char>
    decreases parts.len(),
{
    if parts.len() == 0 {
        Seq::empty()
    } else if parts.len() == 1 {
        parts[0]
    } else {
        parts[0] + sep + join_sep(parts.drop_first(), sep)
    }
}

/// `sep` does not occur anywhere in `s`.
pub open spec fn sep_free(s: Seq<char>, sep: Seq<char>) -> bool {
    forall|i: int| !match_at(s, sep, i)
}

} // verus!

verus! {

/// `p` ends with the two characters `' '`, `m` — the only way a separator
/// occurrence can straddle the seam between a part and the separator that
/// follows it.
pub open spec fn ends_with_sep_head(p: Seq<char>, m: char) -> bool {
    p.len() >= 2 && p[p.len() - 1] == m && p[p.len() - 2] == ' '
}

/// In `p ++ " m " ++ t`, the first occurrence of the separator `" m "` is
/// exactly at the seam, provided `p` neither contains nor half-starts one.
pub proof fn lemma_find_in_join_head(p: Seq<char>, m: char, t: Seq<char>)
    requires
        !is_ws(m),
        sep_free(p, seq![' ', m, ' ']),
        !ends_with_sep_head(p, m),
    ensures
        find_sep(p + seq![' ', m, ' '] + t, seq![' ', m, ' ']) == Some(p.len() as int),
{
    let sep = seq![' ', m, ' '];
    let s = p + sep + t;
    assert(match_at(s, sep, p.len() as int)) by {
        assert(s.subrange(p.len() as int, p.len() as int + 3) =~= sep);
    }
    assert forall|i: int| 0 <= i < p.len() implies !match_at(s, sep, i) by {
        if match_at(s, sep, i) {
            assert(s.subrange(i, i + 3)[0] == s[i]);
            assert(s.subrange(i, i + 3)[1] == s[i + 1]);
            assert(s.subrange(i, i + 3)[2] == s[i + 2]);
            if i + 3 <= p.len() {
                assert(match_at(p, sep, i)) by {
                    assert(p.subrange(i, i + 3) =~= s.subrange(i, i + 3));
                }
            } else if i == p.len() - 2 {
                // would mean p ends with " m"
                assert(s[i] == p[i] && s[i + 1] == p[i + 1]);
                assert(ends_with_sep_head(p, m));
            } else {
                // i == p.len() - 1: the character after the seam is the
                // separator's own leading space, never `m`
                assert(s[i + 1] == sep[0]);
                assert(s[i + 1] == m);
            }
        }
    }
    lemma_find_sep_at(s, sep, p.len() as int);
}

/// Splitting on `" m "` undoes joining with it, when no part contains or
/// half-starts the separator.
pub proof fn lemma_split_join(parts: Seq<Seq<char>>, m: char)
    requires
        !is_ws(m),
        parts.len() >= 1,
        forall|k: int|
            0 <= k < parts.len() ==> sep_free(#[trigger] parts[k], seq![' ', m, ' ']),
        forall|k: int| 0 <= k < parts.len() ==> !ends_with_sep_head(#[trigger] parts[k], m),
    ensures
        split_sep(join_sep(parts, seq![' ', m, ' ']), seq![' ', m, ' ']) == parts,
    decreases parts.len(),
{
    let sep = seq![' ', m, ' '];
    if parts.len() == 1 {
        let s = join_sep(parts, sep);
        assert(s == parts[0]);
        lemma_find_sep(s, sep);
        assert(find_sep(s, sep) is None) by {
            if find_sep(s, sep) is Some {
                let j = find_sep(s, sep)->Some_0;
                assert(match_at(parts[0], sep, j));
            }
        }
        assert(split_sep(s, sep) =~= parts);
    } else {
        let rest = join_sep(parts.drop_first(), sep);
        let s = join_sep(parts, sep);
        assert(s == parts[0] + sep + rest);
        lemma_find_in_join_head(parts[0], m, rest);
        let i = parts[0].len() as int;
        assert(s.take(i) =~= parts[0]);
        assert(s.skip(i + 3) =~= rest);
        lemma_split_join(parts.drop_first(), m);
        assert(split_sep(s, sep) =~= parts);
    }
}

} // verus!

verus! {

/// ASCII decimal digit.
pub open spec fn is_digit(c: char) -> bool {
    '0' <= c && c <= '9'
}

/// Executable test for [`is_digit`].
pub fn is_digit_char(c: char) -> (r: bool)
    ensures
        r == is_digit(c),
{
    '0' <= c && c <= '9'
}

/// Numeric value of a decimal digit character.
pub open spec fn digit_val(c: char) -> int {
    c as int - '0' as int
}

/// Every character of `s` is a decimal digit.
pub open spec fn all_digits(s: Seq<char>) -> bool {
    forall|i: int| 0 <= i < s.len() ==> is_digit(#[trigger] s[i])
}

/// The number a digit string denotes, most significant digit first.
pub open spec fn digits_val(s: Seq<char>) -> int
    decreases s.len(),
{
    if s.len() == 0 {
        0
    } else {
        digits_val(s.drop_last()) * 10 + digit_val(s.last())
    }
}

/// The decimal digit character for `d`.
pub open spec fn digit_char(d: int) -> char {
    if d == 0 {
        '0'
    } else if d == 1 {
        '1'
    } else if d == 2 {
        '2'
    } else if d == 3 {
        '3'
    } else if d == 4 {
        '4'
    } else if d == 5 {
        '5'
    } else if d == 6 {
        '6'
    } else if d == 7 {
        '7'
    } else if d == 8 {
        '8'
    } else {
        '9'
    }
}

/// Decimal representation of `n`, without sign or leading zeros (except for
/// zero itself).
pub open spec fn u64_digits(n: int) -> Seq<char>
    decreases n,
{
    if n < 10 {
        seq![digit_char(n)]
    } else {
        u64_digits(n / 10).push(digit_char(n % 10))
    }
}

pub proof fn lemma_u64_digits(n: int)
    requires
        0 <= n,
    ensures
        u64_digits(n).len() >= 1,
        all_digits(u64_digits(n)),
        digits_val(u64_digits(n)) == n,
    decreases n,
{
    if n < 10 {
        assert(is_digit(u64_digits(n)[0]));
        assert(u64_digits(n).drop_last() =~= Seq::<char>::empty());
        assert(digits_val(u64_digits(n).drop_last()) == 0);
        assert(u64_digits(n).last() == digit_char(n));
        assert(digit_val(digit_char(n)) == n);
    } else {
        lemma_u64_digits(n / 10);
        let s = u64_digits(n);
        assert(s.drop_last() =~= u64_digits(n / 10));
        assert(s.last() == digit_char(n % 10));
        assert(digit_val(digit_char(n % 10)) == n % 10);
        assert(n == (n / 10) * 10 + n % 10) by (nonlinear_arith);
        assert forall|i: int| 0 <= i < s.len() implies is_digit(#[trigger] s[i]) by {
            if i < s.len() - 1 {
                assert(s[i] == u64_digits(n / 10)[i]);
            }
        }
    }
}

} // verus!

verus! {

/// The characters of `s`, in order.
pub fn chars_of(s: &str) -> (r: Vec<char>)
    ensures
        r@ == s@,
{
    let n = s.unicode_len();
    let mut r: Vec<char> = Vec::new();
    let mut i: usize = 0;
    while i < n
        invariant
            i <= n,
            n == s@.len(),
            r@ == s@.take(i as int),
        decreases n - i,
    {
        r.push(s.get_char(i));
        assert(s@.take(i + 1) =~= s@.take(i as int).push(s@[i as int]));
        i += 1;
    }
    assert(s@.take(n as int) =~= s@);
    r
}

/// Relies on `String::push`: appends one character to the end.
#[verifier::external_body]
fn push_char(s: &mut String, c: char)
    ensures
        final(s)@ == old(s)@.push(c),
{
    s.push(c)
}

/// A `String` holding exactly the characters of `cs`.
pub fn string_of(cs: &Vec<char>) -> (r: String)
    ensures
        r@ == cs@,
{
    let mut r = String::new();
    let mut i: usize = 0;
    while i < cs.len()
        invariant
            i <= cs@.len(),
            r@ == cs@.take(i as int),
        decreases cs@.len() - i,
    {
        push_char(&mut r, cs[i]);
        assert(cs@.take(i + 1) =~= cs@.take(i as int).push(cs@[i as int]));
        i += 1;
    }
    assert(cs@.take(cs@.len() as int) =~= cs@);
    r
}

/// Length of the leading non-whitespace run of `s`.
fn token_run(s: &[char]) -> (k: usize)
    ensures
        k == token_run_len(s@),
{
    let n = s.len();
    let mut i: usize = 0;
    while i < n && !is_ws_char(s[i])
        invariant
            i <= n,
            n == s@.len(),
            forall|j: int| 0 <= j < i ==> !is_ws(#[trigger] s@[j]),
        decreases n - i,
    {
        i += 1;
    }
    proof {
        lemma_token_run_len(s@);
        if token_run_len(s@) < i {
            assert(!is_ws(s@[token_run_len(s@)]));
        }
        if i < token_run_len(s@) {
            assert(!is_ws(s@[i as int]));
        }
    }
    i
}

/// The whitespace-separated tokens of `s`.
pub fn tokenize(s: &[char]) -> (r: Vec<Vec<char>>)
    ensures
        r.deep_view() == ws_tokens(s@),
    decreases s.len(),
{
    if s.len() == 0 {
        let r: Vec<Vec<char>> = Vec::new();
        assert(r.deep_view() =~= ws_tokens(s@));
        r
    } else if is_ws_char(s[0]) {
        let rest = slice_subrange(s, 1, s.len());
        assert(rest@ =~= s@.drop_first());
        tokenize(rest)
    } else {
        let k = token_run(s);
        proof {
            lemma_token_run_len(s@);
        }
        let head = slice_to_vec(slice_subrange(s, 0, k));
        let tail = slice_subrange(s, k, s.len());
        assert(tail@ =~= s@.skip(k as int));
        let mut r = tokenize(tail);
        let ghost pre = r.deep_view();
        let ghost pre_shallow = r@;
        r.insert(0, head);
        proof {
            assert forall|j: int| 0 <= j < r@.len() implies r.deep_view()[j] == (seq![head@]
                + pre)[j] by {
                if j == 0 {
                    assert(r@[0] == head);
                    assert(head.deep_view() =~= head@);
                } else {
                    assert(r@[j] == pre_shallow[j - 1]);
                }
            }
            assert(r.deep_view() =~= seq![head@] + pre);
            assert(head@ == s@.take(k as int));
            assert(r.deep_view() =~= ws_tokens(s@));
        }
        r
    }
}

/// Position of the first occurrence of the separator `[' ', m, ' ']` in `s`,
/// if any.
fn find_sep3(s: &[char], m: char) -> (r: Option<usize>)
    ensures
        match r {
            Some(i) => find_sep(s@, seq![' ', m, ' ']) == Some(i as int),
            None => find_sep(s@, seq![' ', m, ' ']) is None,
        },
{
    let ghost sep = seq![' ', m, ' '];
    let n = s.len();
    if n < 3 {
        proof {
            lemma_find_sep(s@, sep);
            if find_sep(s@, sep) is Some {
                assert(match_at(s@, sep, find_sep(s@, sep)->Some_0));
            }
        }
        return None;
    }
    let mut i: usize = 0;
    while i <= n - 3
        invariant
            n == s@.len(),
            3 <= n,
            i <= n - 2,
            sep == seq![' ', m, ' '],
            forall|j: int| 0 <= j < i ==> !match_at(s@, sep, j),
        decreases n - i,
    {
        if s[i] == ' ' && s[i + 1] == m && s[i + 2] == ' ' {
            proof {
                assert(match_at(s@, sep, i as int)) by {
                    assert(s@.subrange(i as int, i + 3) =~= sep);
                }
                lemma_find_sep_at(s@, sep, i as int);
            }
            return Some(i);
        }
        proof {
            assert(!match_at(s@, sep, i as int)) by {
                if match_at(s@, sep, i as int) {
                    assert(s@.subrange(i as int, i + 3)[0] == s@[i as int]);
                    assert(s@.subrange(i as int, i + 3)[1] == s@[i + 1]);
                    assert(s@.subrange(i as int, i + 3)[2] == s@[i + 2]);
                }
            }
        }
        i += 1;
    }
    proof {
        lemma_find_sep(s@, sep);
        if find_sep(s@, sep) is Some {
            let j = find_sep(s@, sep)->Some_0;
            assert(match_at(s@, sep, j));
        }
    }
    None
}

/// The parts of `s` split on the separator `[' ', m, ' ']`.
pub fn split_on(s: &[char], m: char) -> (r: Vec<Vec<char>>)
    ensures
        r.deep_view() == split_sep(s@, seq![' ', m, ' ']),
        r.len() >= 1,
    decreases s.len(),
{
    let ghost sep = seq![' ', m, ' '];
    match find_sep3(s, m) {
        None => {
            let mut r: Vec<Vec<char>> = Vec::new();
            r.push(slice_to_vec(s));
            proof {
                assert(r@[0].deep_view() =~= s@);
                assert(r.deep_view() =~= seq![s@]);
                assert(r.deep_view() =~= split_sep(s@, sep));
            }
            r
        },
        Some(i) => {
            proof {
                lemma_find_sep(s@, sep);
                assert(match_at(s@, sep, i as int));
            }
            let head = slice_to_vec(slice_subrange(s, 0, i));
            let tail = slice_subrange(s, i + 3, s.len());
            assert(tail@ =~= s@.skip(i + 3));
            let mut r = split_on(tail, m);
            let ghost pre = r.deep_view();
            let ghost pre_shallow = r@;
            r.insert(0, head);
            proof {
                assert forall|j: int| 0 <= j < r@.len() implies r.deep_view()[j] == (seq![head@]
                    + pre)[j] by {
                    if j == 0 {
                        assert(r@[0] == head);
                        assert(head.deep_view() =~= head@);
                    } else {
                        assert(r@[j] == pre_shallow[j - 1]);
                    }
                }
                assert(r.deep_view() =~= seq![head@] + pre);
                assert(head@ == s@.take(i as int));
                assert(r.deep_view() =~= split_sep(s@, sep));
            }
            r
        },
    }
}

/// `s` without leading and trailing whitespace.
pub fn trim(s: &[char]) -> (r: Vec<char>)
    ensures
        r@ == trim_spec(s@),
{
    let n = s.len();
    let mut a: usize = 0;
    while a < n && is_ws_char(s[a])
        invariant
            a <= n,
            n == s@.len(),
            forall|j: int| 0 <= j < a ==> is_ws(#[trigger] s@[j]),
        decreases n - a,
    {
        a += 1;
    }
    proof {
        lemma_ws_run_len(s@);
        if ws_run_len(s@) < a {
            assert(!is_ws(s@[ws_run_len(s@)]));
        }
        if a < ws_run_len(s@) {
            assert(is_ws(s@[a as int]));
        }
        assert(a == ws_run_len(s@));
    }
    if a == n {
        let r: Vec<char> = Vec::new();
        assert(r@ =~= trim_spec(s@));
        return r;
    }
    let mut b: usize = n;
    while b > a && is_ws_char(s[b - 1])
        invariant
            a <= b <= n,
            n == s@.len(),
            a == ws_run_len(s@) < n,
            forall|j: int| b <= j < n ==> is_ws(#[trigger] s@[j]),
        decreases b,
    {
        b -= 1;
    }
    proof {
        lemma_ws_run_len_rev(s@);
        lemma_trim_bounds(s@);
        let rv = ws_run_len_rev(s@);
        if n - rv < b {
            assert(is_ws(s@[n - 1 - rv]));
            assert(b - 1 >= n - rv);
        }
        if b < n - rv {
            assert(is_ws(s@[b - 1]));
            assert(!is_ws(s@[b - 1])) by {
                if b - 1 >= a + 1 {
                    assert(b > a);
                }
            }
        }
        assert(b == n - rv);
    }
    let out = slice_to_vec(slice_subrange(s, a, b));
    assert(out@ =~= trim_spec(s@));
    out
}

} // verus!

verus! {

/// Appending one more part extends a join by one separator and the part.
pub proof fn lemma_join_snoc(parts: Seq<Seq<char>>, sep: Seq<char>, p: Seq<char>)
    ensures
        parts.len() == 0 ==> join_sep(parts.push(p), sep) == p,
        parts.len() > 0 ==> join_sep(parts.push(p), sep) == join_sep(parts, sep) + sep + p,
    decreases parts.len(),
{
    if parts.len() == 0 {
        assert(join_sep(parts.push(p), sep) == parts.push(p)[0]);
    } else if parts.len() == 1 {
        let w = parts.push(p);
        assert(w.drop_first() =~= seq![p]);
        assert(join_sep(w, sep) == w[0] + sep + join_sep(w.drop_first(), sep));
        assert(w[0] == parts[0]);
    } else {
        let w = parts.push(p);
        assert(w.drop_first() =~= parts.drop_first().push(p));
        lemma_join_snoc(parts.drop_first(), sep, p);
        assert(join_sep(w, sep) == w[0] + sep + join_sep(parts.drop_first().push(p), sep));
        assert(join_sep(w, sep) =~= join_sep(parts, sep) + sep + p);
    }
}

/// The parts joined with `sep` between them.
pub fn join_with(parts: &Vec<Vec<char>>, sep: &[char]) -> (r: Vec<char>)
    ensures
        r@ == join_sep(parts.deep_view(), sep@),
{
    let mut r: Vec<char> = Vec::new();
    let mut i: usize = 0;
    while i < parts.len()
        invariant
            i <= parts@.len(),
            parts.deep_view().len() == parts@.len(),
            r@ == join_sep(parts.deep_view().take(i as int), sep@),
        decreases parts@.len() - i,
    {
        proof {
            assert(parts.deep_view().take(i + 1) =~= parts.deep_view().take(i as int).push(
                parts@[i as int].deep_view(),
            ));
            lemma_join_snoc(parts.deep_view().take(i as int), sep@, parts@[i as int].deep_view());
        }
        if i > 0 {
            let mut sv = slice_to_vec(sep);
            r.append(&mut sv);
        }
        let mut pv = parts[i].clone();
        proof {
            assert(pv@ =~= parts@[i as int].deep_view());
        }
        r.append(&mut pv);
        proof {
            if i == 0 {
                assert(parts.deep_view().take(0int) =~= Seq::<Seq<char>>::empty());
                assert(join_sep(parts.deep_view().take(0int), sep@) =~= Seq::<char>::empty());
                assert(r@ =~= join_sep(parts.deep_view().take(1int), sep@));
            }
        }
        i += 1;
    }
    proof {
        assert(parts.deep_view().take(parts@.len() as int) =~= parts.deep_view());
    }
    r
}

/// Natural-language list joining: two items with the conjunction between
/// them; three or more with comma separators and a comma before the final
/// conjunction.
pub open spec fn oxford_spec(parts: Seq<Seq<char>>, conj: Seq<char>) -> Seq<char> {
    if parts.len() == 0 {
        Seq::empty()
    } else if parts.len() == 1 {
        parts[0]
    } else if parts.len() == 2 {
        parts[0] + seq![' '] + conj + seq![' '] + parts[1]
    } else {
        join_sep(parts.drop_last(), seq![',', ' ']) + seq![',', ' '] + conj + seq![' ']
            + parts.last()
    }
}

/// Oxford-style joining of `parts` with the conjunction `conj`.
pub fn oxford(parts: &Vec<Vec<char>>, conj: &[char]) -> (r: Vec<char>)
    ensures
        r@ == oxford_spec(parts.deep_view(), conj@),
{
    if parts.len() == 0 {
        Vec::new()
    } else if parts.len() == 1 {
        let r = parts[0].clone();
        proof {
            assert(r@ =~= oxford_spec(parts.deep_view(), conj@));
        }
        r
    } else if parts.len() == 2 {
        let mut r = parts[0].clone();
        r.push(' ');
        let mut cv = slice_to_vec(conj);
        r.append(&mut cv);
        r.push(' ');
        let mut p1 = parts[1].clone();
        r.append(&mut p1);
        proof {
            assert(r@ =~= oxford_spec(parts.deep_view(), conj@));
        }
        r
    } else {
        let mut head: Vec<Vec<char>> = Vec::new();
        let mut i: usize = 0;
        while i < parts.len() - 1
            invariant
                parts@.len() >= 3,
                i <= parts@.len() - 1,
                head.deep_view() == parts.deep_view().take(i as int),
            decreases parts@.len() - i,
        {
            let ghost pre = head.deep_view();
            let ghost pre_shallow = head@;
            proof {
                assert(head.deep_view().len() == i);
                assert(head.deep_view() == Seq::new(head@.len(), |k: int| head@[k].deep_view()));
                assert(pre_shallow.len() == i);
            }
            head.push(parts[i].clone());
            proof {
                assert forall|j: int| 0 <= j < head@.len() implies head.deep_view()[j]
                    == parts.deep_view().take(i + 1)[j] by {
                    if j < i {
                        assert(head@[j] == pre_shallow[j]);
                        assert(pre_shallow[j].deep_view() == pre[j]);
                    } else {
                        assert(head@[j]@ =~= parts@[i as int]@);
                    }
                }
                assert(head.deep_view() =~= parts.deep_view().take(i + 1));
            }
            i += 1;
        }
        let comma = [',', ' '];
        let mut r = join_with(&head, &comma);
        proof {
            assert(comma@ =~= seq![',', ' ']);
            assert(parts.deep_view().take(parts@.len() - 1) =~= parts.deep_view().drop_last());
        }
        r.push(',');
        r.push(' ');
        let mut cv = slice_to_vec(conj);
        r.append(&mut cv);
        r.push(' ');
        let mut lastv = parts[parts.len() - 1].clone();
        r.append(&mut lastv);
        proof {
            assert(parts@[parts@.len() - 1].deep_view() == parts.deep_view().last());
            assert(r@ =~= oxford_spec(parts.deep_view(), conj@));
        }
        r
    }
}

} // verus!

verus! {

/// The digits of an unsigned decimal number, after an optional `+` sign.
pub open spec fn u64_body(s: Seq<char>) -> Seq<char> {
    if s.len() > 0 && s[0] == '+' {
        s.drop_first()
    } else {
        s
    }
}

/// The unsigned 64-bit number `s` denotes: an optional `+` sign, then one or
/// more decimal digits, rejecting anything else and values over `u64::MAX`.
pub open spec fn parse_u64_spec(s: Seq<char>) -> Option<u64> {
    let b = u64_body(s);
    if b.len() == 0 || !all_digits(b) {
        None
    } else if digits_val(b) > u64::MAX {
        None
    } else {
        Some(digits_val(b) as u64)
    }
}

/// Parses `s` as an unsigned 64-bit decimal number.
pub fn parse_u64(s: &[char]) -> (r: Option<u64>)
    ensures
        r == parse_u64_spec(s@),
{
    let n = s.len();
    let start: usize = if n > 0 && s[0] == '+' {
        1
    } else {
        0
    };
    proof {
        assert(u64_body(s@) =~= s@.subrange(start as int, n as int));
    }
    if start == n {
        return None;
    }
    let mut acc: u64 = 0;
    let mut over: bool = false;
    let mut i: usize = start;
    while i < n
        invariant
            start <= i <= n,
            n == s@.len(),
            u64_body(s@) == s@.subrange(start as int, n as int),
            forall|j: int| start <= j < i ==> is_digit(#[trigger] s@[j]),
            !over ==> acc == digits_val(s@.subrange(start as int, i as int)),
            over ==> digits_val(s@.subrange(start as int, i as int)) > u64::MAX,
        decreases n - i,
    {
        let c = s[i];
        if !is_digit_char(c) {
            proof {
                assert(!all_digits(u64_body(s@))) by {
                    assert(u64_body(s@)[i - start] == s@[i as int]);
                }
            }
            return None;
        }
        let d: u64 = (c as u32 as u64) - 48;
        proof {
            assert(s@.subrange(start as int, i + 1).drop_last() =~= s@.subrange(
                start as int,
                i as int,
            ));
            assert(s@.subrange(start as int, i + 1).last() == s@[i as int]);
            assert(d == digit_val(s@[i as int]));
        }
        if over {
            proof {
                let prev = digits_val(s@.subrange(start as int, i as int));
                assert(digits_val(s@.subrange(start as int, i + 1)) == prev * 10 + d);
                assert(prev * 10 + d > u64::MAX);
            }
        } else {
            if acc > (u64::MAX - d) / 10 {
                over = true;
                proof {
                    let m = (u64::MAX - d) as int;
                    assert(m == (m / 10) * 10 + m % 10) by (nonlinear_arith);
                    assert(m % 10 < 10) by (nonlinear_arith)
                        requires
                            m >= 0,
                    ;
                    assert(acc * 10 >= (m / 10 + 1) * 10) by (nonlinear_arith)
                        requires
                            acc >= m / 10 + 1,
                    ;
                    assert(digits_val(s@.subrange(start as int, i + 1)) > u64::MAX);
                }
            } else {
                proof {
                    let m = (u64::MAX - d) as int;
                    assert(m == (m / 10) * 10 + m % 10) by (nonlinear_arith);
                    assert(m % 10 >= 0) by (nonlinear_arith)
                        requires
                            m >= 0,
                    ;
                    assert(acc * 10 <= (m / 10) * 10) by (nonlinear_arith)
                        requires
                            acc <= m / 10,
                    ;
                    assert(acc * 10 + d <= u64::MAX);
                }
                acc = acc * 10 + d;
            }
        }
        i += 1;
    }
    proof {
        assert(s@.subrange(start as int, n as int) == u64_body(s@));
        assert(u64_body(s@).len() > 0);
    }
    if over {
        None
    } else {
        Some(acc)
    }
}

/// Appends the decimal digits of `n` to `out`.
pub fn push_u64(out: &mut Vec<char>, n: u64)
    ensures
        final(out)@ == old(out)@ + u64_digits(n as int),
    decreases n,
{
    if n < 10 {
        let c: char = match n {
            0 => '0',
            1 => '1',
            2 => '2',
            3 => '3',
            4 => '4',
            5 => '5',
            6 => '6',
            7 => '7',
            8 => '8',
            _ => '9',
        };
        out.push(c);
        assert(out@ =~= old(out)@ + u64_digits(n as int));
    } else {
        push_u64(out, n / 10);
        let d = n % 10;
        let c: char = match d {
            0 => '0',
            1 => '1',
            2 => '2',
            3 => '3',
            4 => '4',
            5 => '5',
            6 => '6',
            7 => '7',
            8 => '8',
            _ => '9',
        };
        out.push(c);
        assert(out@ =~= old(out)@ + u64_digits(n as int));
    }
}

/// The English word for a small count, or its decimal digits from
/// twenty-one upward.
pub open spec fn english_spec(n: int) -> Seq<char> {
    if n == 0 {
        "zero"@
    } else if n == 1 {
        "one"@
    } else if n == 2 {
        "two"@
    } else if n == 3 {
        "three"@
    } else if n == 4 {
        "four"@
    } else if n == 5 {
        "five"@
    } else if n == 6 {
        "six"@
    } else if n == 7 {
        "seven"@
    } else if n == 8 {
        "eight"@
    } else if n == 9 {
        "nine"@
    } else if n == 10 {
        "ten"@
    } else if n == 11 {
        "eleven"@
    } else if n == 12 {
        "twelve"@
    } else if n == 13 {
        "thirteen"@
    } else if n == 14 {
        "fourteen"@
    } else if n == 15 {
        "fifteen"@
    } else if n == 16 {
        "sixteen"@
    } else if n == 17 {
        "seventeen"@
    } else if n == 18 {
        "eighteen"@
    } else if n == 19 {
        "nineteen"@
    } else if n == 20 {
        "twenty"@
    } else {
        u64_digits(n)
    }
}

/// The English rendering of the count `n`.
pub fn english(n: u64) -> (r: Vec<char>)
    ensures
        r@ == english_spec(n as int),
{
    if n <= 20 {
        let w: &str = match n {
            0 => "zero",
            1 => "one",
            2 => "two",
            3 => "three",
            4 => "four",
            5 => "five",
            6 => "six",
            7 => "seven",
            8 => "eight",
            9 => "nine",
            10 => "ten",
            11 => "eleven",
            12 => "twelve",
            13 => "thirteen",
            14 => "fourteen",
            15 => "fifteen",
            16 => "sixteen",
            17 => "seventeen",
            18 => "eighteen",
            19 => "nineteen",
            _ => "twenty",
        };
        chars_of(w)
    } else {
        let mut out: Vec<char> = Vec::new();
        push_u64(&mut out, n);
        assert(out@ =~= english_spec(n as int));
        out
    }
}

} // verus!

verus! {

/// The decimal digit character for the executable value `d`.
pub fn digit_of(d: u64) -> (c: char)
    requires
        d < 10,
    ensures
        c == digit_char(d as int),
{
    match d {
        0 => '0',
        1 => '1',
        2 => '2',
        3 => '3',
        4 => '4',
        5 => '5',
        6 => '6',
        7 => '7',
        8 => '8',
        _ => '9',
    }
}

/// The number a plain digit string denotes, when it is nonempty, all
/// digits, and within the 64-bit range.
pub open spec fn digits_to_u64_spec(s: Seq<char>) -> Option<u64> {
    if s.len() == 0 || !all_digits(s) {
        None
    } else if digits_val(s) > u64::MAX {
        None
    } else {
        Some(digits_val(s) as u64)
    }
}

/// Parses a plain digit string (no sign) as an unsigned 64-bit number.
pub fn digits_to_u64(s: &[char]) -> (r: Option<u64>)
    ensures
        r == digits_to_u64_spec(s@),
{
    let n = s.len();
    if n == 0 {
        return None;
    }
    let mut acc: u64 = 0;
    let mut over: bool = false;
    let mut i: usize = 0;
    while i < n
        invariant
            i <= n,
            n == s@.len(),
            forall|j: int| 0 <= j < i ==> is_digit(#[trigger] s@[j]),
            !over ==> acc == digits_val(s@.take(i as int)),
            over ==> digits_val(s@.take(i as int)) > u64::MAX,
        decreases n - i,
    {
        let c = s[i];
        if !is_digit_char(c) {
            return None;
        }
        let d: u64 = (c as u32 as u64) - 48;
        proof {
            assert(s@.take(i + 1).drop_last() =~= s@.take(i as int));
            assert(s@.take(i + 1).last() == s@[i as int]);
            assert(d == digit_val(s@[i as int]));
        }
        if over {
            proof {
                let prev = digits_val(s@.take(i as int));
                assert(digits_val(s@.take(i + 1)) == prev * 10 + d);
            }
        } else {
            if acc > (u64::MAX - d) / 10 {
                over = true;
                proof {
                    let m = (u64::MAX - d) as int;
                    assert(m == (m / 10) * 10 + m % 10) by (nonlinear_arith);
                    assert(m % 10 < 10) by (nonlinear_arith)
                        requires
                            m >= 0,
                    ;
                    assert(acc * 10 >= (m / 10 + 1) * 10) by (nonlinear_arith)
                        requires
                            acc >= m / 10 + 1,
                    ;
                    assert(digits_val(s@.take(i + 1)) > u64::MAX);
                }
            } else {
                proof {
                    let m = (u64::MAX - d) as int;
                    assert(m == (m / 10) * 10 + m % 10) by (nonlinear_arith);
                    assert(m % 10 >= 0) by (nonlinear_arith)
                        requires
                            m >= 0,
                    ;
                    assert(acc * 10 <= (m / 10) * 10) by (nonlinear_arith)
                        requires
                            acc <= m / 10,
                    ;
                    assert(acc * 10 + d <= u64::MAX);
                }
                acc = acc * 10 + d;
            }
        }
        i += 1;
    }
    proof {
        assert(s@.take(n as int) =~= s@);
    }
    if over {
        None
    } else {
        Some(acc)
    }
}

/// Position of the first occurrence of the character `c` in `s`, if any.
pub fn find_char(s: &[char], c: char) -> (r: Option<usize>)
    ensures
        match r {
            Some(i) => find_sep(s@, seq![c]) == Some(i as int),
            None => find_sep(s@, seq![c]) is None,
        },
{
    let ghost sep = seq![c];
    let n = s.len();
    let mut i: usize = 0;
    while i < n
        invariant
            i <= n,
            n == s@.len(),
            sep == seq![c],
            forall|j: int| 0 <= j < i ==> !match_at(s@, sep, j),
        decreases n - i,
    {
        if s[i] == c {
            proof {
                assert(match_at(s@, sep, i as int)) by {
                    assert(s@.subrange(i as int, i as int + 1) =~= sep);
                }
                lemma_find_sep_at(s@, sep, i as int);
            }
            return Some(i);
        }
        proof {
            assert(!match_at(s@, sep, i as int)) by {
                if match_at(s@, sep, i as int) {
                    assert(s@.subrange(i as int, i as int + 1)[0] == s@[i as int]);
                }
            }
        }
        i += 1;
    }
    proof {
        lemma_find_sep(s@, sep);
        if find_sep(s@, sep) is Some {
            let j = find_sep(s@, sep)->Some_0;
            assert(match_at(s@, sep, j));
        }
    }
    None
}

} // verus!

verus! {

/// A digit character stands for a digit.
pub proof fn lemma_digit_char_is_digit(d: int)
    ensures
        is_digit(digit_char(d)),
{
}

} // verus!
