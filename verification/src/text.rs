//! Character-level text helpers shared by the rest of the crate: decimal
//! formatting and parsing, trimming, splitting and joining.
use vstd::prelude::*;
use vstd::utf8::{decode_utf8, valid_utf8};
use vstd::string::StringExecFns;

verus! {

broadcast use vstd::string::group_string_axioms;

/// Appends the character `c` to `s`.
///
/// Wraps `String::push`, which std documents as appending the given char to the end of the string.
#[verifier::external_body]
pub(crate) fn push_char(s: &mut String, c: char)
    ensures
        final(s)@ == old(s)@.push(c),
{
    s.push(c)
}

/// Decodes `bytes` as UTF-8.
///
/// Wraps `std::str::from_utf8`, which std documents as succeeding exactly when the bytes are
/// valid UTF-8, and then returning the string those bytes encode.
#[verifier::external_body]
pub(crate) fn utf8_to_string(bytes: &[u8]) -> (r: Option<String>)
    ensures
        r is Some <==> valid_utf8(bytes@),
        r matches Some(s) ==> s@ == decode_utf8(bytes@),
{
    match std::str::from_utf8(bytes) {
        Ok(s) => Some(s.to_string()),
        Err(_) => None,
    }
}

/// Upper-case mapping of a character sequence, as Unicode defines it for `str::to_uppercase`.
pub uninterp spec fn spec_to_uppercase(s: Seq<char>) -> Seq<char>;

/// The upper-case form of an ASCII character.
pub open spec fn ascii_upper(c: char) -> char {
    if 'a' <= c <= 'z' {
        ((c as int) - 32) as char
    } else {
        c
    }
}

/// Returns the upper-case form of `s`.
///
/// Wraps `str::to_uppercase`. The result is named `spec_to_uppercase`; the one fact stated besides
/// is the one Unicode gives for ASCII text: each ASCII letter maps to its ASCII capital and every
/// other ASCII character stays as it is. What it does to other characters is left unsaid.
#[verifier::external_body]
pub(crate) fn to_uppercase(s: &str) -> (r: String)
    ensures
        r@ == spec_to_uppercase(s@),
        vstd::utf8::is_ascii_chars(s@) ==> r@ == s@.map_values(|c: char| ascii_upper(c)),
{
    s.to_uppercase()
}

/// The characters of `s`, in order.
pub fn str_chars(s: &str) -> (r: Vec<char>)
    ensures
        r@ == s@,
{
    let mut v: Vec<char> = Vec::new();
    for c in it: s.chars()
        invariant
            v@ == it.seq().take(it.index() as int),
            it.seq() == s@,
    {
        v.push(c);
    }
    v
}

/// Appends `v[from..to]` to `s`.
pub fn append_chars(s: &mut String, v: &Vec<char>, from: usize, to: usize)
    requires
        from <= to <= v@.len(),
    ensures
        final(s)@ == old(s)@ + v@.subrange(from as int, to as int),
{
    let mut i = from;
    while i < to
        invariant
            from <= i <= to <= v@.len(),
            s@ == old(s)@ + v@.subrange(from as int, i as int),
        decreases to - i,
    {
        push_char(s, v[i]);
        i = i + 1;
        assert(s@ =~= old(s)@ + v@.subrange(from as int, i as int));
    }
}

/// A new string made of `v[from..to]`.
pub fn string_from_chars(v: &Vec<char>, from: usize, to: usize) -> (r: String)
    requires
        from <= to <= v@.len(),
    ensures
        r@ == v@.subrange(from as int, to as int),
{
    let mut s = String::new();
    append_chars(&mut s, v, from, to);
    s
}

/// Whether `a[af..at]` and `b` hold the same characters.
pub fn chars_eq(a: &Vec<char>, af: usize, at: usize, b: &Vec<char>) -> (r: bool)
    requires
        af <= at <= a@.len(),
    ensures
        r == (a@.subrange(af as int, at as int) == b@),
{
    if at - af != b.len() {
        return false;
    }
    let mut i: usize = 0;
    while i < b.len()
        invariant
            af <= at <= a@.len(),
            at - af == b@.len(),
            i <= b@.len(),
            forall|j: int| 0 <= j < i ==> a@[af + j] == b@[j],
        decreases b.len() - i,
    {
        if a[af + i] != b[i] {
            assert(a@.subrange(af as int, at as int)[i as int] != b@[i as int]);
            return false;
        }
        i = i + 1;
    }
    assert(a@.subrange(af as int, at as int) =~= b@);
    true
}

/// Whether the strings `a` and `b` hold the same characters.
pub fn str_eq(a: &str, b: &str) -> (r: bool)
    ensures
        r == (a@ == b@),
{
    let av = str_chars(a);
    let bv = str_chars(b);
    assert(av@.subrange(0, av@.len() as int) =~= av@);
    chars_eq(&av, 0, av.len(), &bv)
}

// ---------------------------------------------------------------------------------------------
// Decimal formatting
// ---------------------------------------------------------------------------------------------

/// The character of the decimal digit `d` (taken modulo ten).
pub open spec fn digit_char(d: nat) -> char {
    let d = d % 10;
    if d == 0 {
        '0'
    } else if d == 1 {
        '1'
    } else if d == 2 {
        '2'
    } else if d == 3 {
        '3'
    } else if d == 4 {
        '4'
    } else if d == 5 {
        '5'
    } else if d == 6 {
        '6'
    } else if d == 7 {
        '7'
    } else if d == 8 {
        '8'
    } else {
        '9'
    }
}

/// The decimal representation of `n`, without sign or leading zeros.
pub open spec fn spec_decimal(n: nat) -> Seq<char>
    decreases n,
{
    if n < 10 {
        seq![digit_char(n)]
    } else {
        spec_decimal(n / 10).push(digit_char(n % 10))
    }
}

fn digit_to_char(d: u64) -> (c: char)
    requires
        d < 10,
    ensures
        c == digit_char(d as nat),
{
    if d == 0 {
        '0'
    } else if d == 1 {
        '1'
    } else if d == 2 {
        '2'
    } else if d == 3 {
        '3'
    } else if d == 4 {
        '4'
    } else if d == 5 {
        '5'
    } else if d == 6 {
        '6'
    } else if d == 7 {
        '7'
    } else if d == 8 {
        '8'
    } else {
        '9'
    }
}

/// Appends the decimal representation of `n` to `s`.
pub fn append_decimal(s: &mut String, n: u64)
    ensures
        final(s)@ == old(s)@ + spec_decimal(n as nat),
    decreases n,
{
    if n >= 10 {
        append_decimal(s, n / 10);
    }
    let ghost mid = s@;
    push_char(s, digit_to_char(n % 10));
    proof {
        if n >= 10 {
            assert(s@ =~= old(s)@ + spec_decimal(n as nat));
        } else {
            assert(s@ =~= old(s)@ + spec_decimal(n as nat));
        }
    }
}

/// The decimal representation of `n`.
pub fn decimal_string(n: u64) -> (r: String)
    ensures
        r@ == spec_decimal(n as nat),
{
    let mut s = String::new();
    append_decimal(&mut s, n);
    assert(s@ =~= spec_decimal(n as nat));
    s
}

// ---------------------------------------------------------------------------------------------
// Unsigned integer parsing, as `str::parse` and `from_str_radix` do for unsigned types
// ---------------------------------------------------------------------------------------------

/// The value of `c` as a digit in base `radix` (at most 36), if it is one.
pub open spec fn char_digit(c: char, radix: nat) -> Option<nat> {
    let v: int = if '0' <= c <= '9' {
        c as int - '0' as int
    } else if 'a' <= c <= 'z' {
        c as int - 'a' as int + 10
    } else if 'A' <= c <= 'Z' {
        c as int - 'A' as int + 10
    } else {
        radix as int
    };
    if 0 <= v < radix {
        Some(v as nat)
    } else {
        None
    }
}

/// Whether every character of `s` is a digit in base `radix`.
pub open spec fn all_digits(s: Seq<char>, radix: nat) -> bool {
    forall|i: int| 0 <= i < s.len() ==> (#[trigger] char_digit(s[i], radix)) is Some
}

/// The number that the digits `s` denote in base `radix`.
pub open spec fn digits_value(s: Seq<char>, radix: nat) -> nat
    decreases s.len(),
{
    if s.len() == 0 {
        0
    } else {
        digits_value(s.drop_last(), radix) * radix + char_digit(s.last(), radix).unwrap()
    }
}

/// What `from_str_radix` gives for an unsigned type whose largest value is `max`: an optional
/// leading `+`, then one or more digits, denoting a number no larger than `max`.
pub open spec fn spec_parse_unsigned(s: Seq<char>, radix: nat, max: nat) -> Option<nat> {
    let d = if s.len() > 0 && s[0] == '+' {
        s.drop_first()
    } else {
        s
    };
    if d.len() > 0 && all_digits(d, radix) && digits_value(d, radix) <= max {
        Some(digits_value(d, radix))
    } else {
        None
    }
}

fn char_digit_exec(c: char, radix: u32) -> (r: Option<u32>)
    requires
        2 <= radix <= 36,
    ensures
        match r {
            Some(v) => char_digit(c, radix as nat) == Some(v as nat),
            None => char_digit(c, radix as nat) is None,
        },
{
    let v: u32 = if '0' <= c && c <= '9' {
        (c as u32) - ('0' as u32)
    } else if 'a' <= c && c <= 'z' {
        (c as u32) - ('a' as u32) + 10
    } else if 'A' <= c && c <= 'Z' {
        (c as u32) - ('A' as u32) + 10
    } else {
        radix
    };
    if v < radix {
        Some(v)
    } else {
        None
    }
}

proof fn lemma_digits_value_grows(s: Seq<char>, k: int, radix: nat)
    requires
        0 <= k <= s.len(),
        radix >= 2,
        all_digits(s, radix),
    ensures
        digits_value(s.take(k), radix) <= digits_value(s, radix),
    decreases s.len(),
{
    if k < s.len() {
        let t = s.drop_last();
        assert(all_digits(t, radix)) by {
            assert forall|i: int| 0 <= i < t.len() implies (#[trigger] char_digit(t[i], radix)) is Some by {
                assert(t[i] == s[i]);
            }
        }
        assert(s.take(k) =~= t.take(k));
        lemma_digits_value_grows(t, k, radix);
        let dv = digits_value(t, radix);
        assert(dv <= dv * radix) by (nonlinear_arith)
            requires radix >= 2;
    } else {
        assert(s.take(k) =~= s);
    }
}

/// Parses `v[from..to]` as `from_str_radix` does for an unsigned type whose largest value is `max`.
pub fn parse_unsigned(v: &Vec<char>, from: usize, to: usize, radix: u32, max: u64) -> (r: Option<u64>)
    requires
        from <= to <= v@.len(),
        2 <= radix <= 36,
    ensures
        match r {
            Some(n) => spec_parse_unsigned(v@.subrange(from as int, to as int), radix as nat, max as nat) == Some(n as nat),
            None => spec_parse_unsigned(v@.subrange(from as int, to as int), radix as nat, max as nat) is None,
        },
{
    let ghost s = v@.subrange(from as int, to as int);
    let start = if from < to && v[from] == '+' {
        from + 1
    } else {
        from
    };
    let ghost d = v@.subrange(start as int, to as int);
    assert(d =~= (if s.len() > 0 && s[0] == '+' { s.drop_first() } else { s }));
    if start == to {
        return None;
    }
    let mut acc: u64 = 0;
    let mut i = start;
    while i < to
        invariant
            from <= start <= i <= to <= v@.len(),
            2 <= radix <= 36,
            d == v@.subrange(start as int, to as int),
            s == v@.subrange(from as int, to as int),
            d == (if s.len() > 0 && s[0] == '+' { s.drop_first() } else { s }),
            d.len() > 0,
            all_digits(d.take(i - start), radix as nat),
            acc as nat == digits_value(d.take(i - start), radix as nat),
            acc <= max,
        decreases to - i,
    {
        let c = v[i];
        let dig = char_digit_exec(c, radix);
        let ghost k = (i - start) as int;
        assert(d[k] == c);
        match dig {
            None => {
                assert(!all_digits(d, radix as nat)) by {
                    assert(char_digit(d[k], radix as nat) is None);
                }
                return None;
            },
            Some(dv) => {
                assert(d.take(k + 1).drop_last() =~= d.take(k));
                assert(d.take(k + 1).last() == c);
                assert(all_digits(d.take(k + 1), radix as nat)) by {
                    assert forall|j: int| 0 <= j < k + 1 implies (#[trigger] char_digit(d.take(k + 1)[j], radix as nat)) is Some by {
                        if j < k {
                            assert(d.take(k + 1)[j] == d.take(k)[j]);
                        }
                    }
                }
                let ghost newval = digits_value(d.take(k + 1), radix as nat);
                assert(newval == acc as nat * radix as nat + dv as nat);
                if dv as u64 > max || acc > (max - dv as u64) / (radix as u64) {
                    proof {
                        if dv as u64 <= max {
                            let lim: int = (max as int - dv as int) / (radix as int);
                            assert(acc as nat * radix as nat + dv as nat > max as nat) by (nonlinear_arith)
                                requires
                                    acc as int > lim,
                                    lim == (max as int - dv as int) / (radix as int),
                                    radix >= 2,
                                    dv as u64 <= max,
                            ;
                        }
                        if all_digits(d, radix as nat) {
                            lemma_digits_value_grows(d, k + 1, radix as nat);
                        }
                    }
                    return None;
                }
                proof {
                    let lim: int = (max as int - dv as int) / (radix as int);
                    assert(acc as nat * radix as nat + dv as nat <= max as nat) by (nonlinear_arith)
                        requires
                            acc as int <= lim,
                            lim == (max as int - dv as int) / (radix as int),
                            radix >= 2,
                            dv as u64 <= max,
                    ;
                }
                acc = acc * (radix as u64) + dv as u64;
                i = i + 1;
            },
        }
    }
    assert(d.take(to - start) =~= d);
    Some(acc)
}

// ---------------------------------------------------------------------------------------------
// Whitespace and trimming, as `char::is_whitespace` and `str::trim` define them
// ---------------------------------------------------------------------------------------------

/// Whether `c` has the Unicode `White_Space` property.
pub open spec fn is_whitespace(c: char) -> bool {
    ||| '\t' <= c <= '\r'
    ||| c == ' '
    ||| c == '\u{85}'
    ||| c == '\u{a0}'
    ||| c == '\u{1680}'
    ||| '\u{2000}' <= c <= '\u{200a}'
    ||| c == '\u{2028}'
    ||| c == '\u{2029}'
    ||| c == '\u{202f}'
    ||| c == '\u{205f}'
    ||| c == '\u{3000}'
}

fn is_whitespace_exec(c: char) -> (r: bool)
    ensures
        r == is_whitespace(c),
{
    ('\t' <= c && c <= '\r') || c == ' ' || c == '\u{85}' || c == '\u{a0}' || c == '\u{1680}' || (
    '\u{2000}' <= c && c <= '\u{200a}') || c == '\u{2028}' || c == '\u{2029}' || c == '\u{202f}'
        || c == '\u{205f}' || c == '\u{3000}'
}

/// `s` without its leading whitespace.
pub open spec fn spec_trim_start(s: Seq<char>) -> Seq<char>
    decreases s.len(),
{
    if s.len() > 0 && is_whitespace(s[0]) {
        spec_trim_start(s.drop_first())
    } else {
        s
    }
}

/// `s` without its trailing whitespace.
pub open spec fn spec_trim_end(s: Seq<char>) -> Seq<char>
    decreases s.len(),
{
    if s.len() > 0 && is_whitespace(s.last()) {
        spec_trim_end(s.drop_last())
    } else {
        s
    }
}

/// `s` without leading and trailing whitespace, as `str::trim` gives it.
pub open spec fn spec_trim(s: Seq<char>) -> Seq<char> {
    spec_trim_end(spec_trim_start(s))
}

/// The bounds of `v[from..to]` trimmed of whitespace on both ends.
pub fn trim_range(v: &Vec<char>, from: usize, to: usize) -> (r: (usize, usize))
    requires
        from <= to <= v@.len(),
    ensures
        from <= r.0 <= r.1 <= to,
        v@.subrange(r.0 as int, r.1 as int) == spec_trim(v@.subrange(from as int, to as int)),
{
    let mut a = from;
    while a < to && is_whitespace_exec(v[a])
        invariant
            from <= a <= to <= v@.len(),
            spec_trim_start(v@.subrange(from as int, to as int)) == spec_trim_start(
                v@.subrange(a as int, to as int),
            ),
        decreases to - a,
    {
        assert(v@.subrange(a as int, to as int).drop_first() =~= v@.subrange(a + 1, to as int));
        a = a + 1;
    }
    let mut b = to;
    while b > a && is_whitespace_exec(v[b - 1])
        invariant
            from <= a <= b <= to <= v@.len(),
            spec_trim_end(v@.subrange(a as int, to as int)) == spec_trim_end(
                v@.subrange(a as int, b as int),
            ),
        decreases b - a,
    {
        assert(v@.subrange(a as int, b as int).drop_last() =~= v@.subrange(a as int, b - 1));
        b = b - 1;
    }
    (a, b)
}

// ---------------------------------------------------------------------------------------------
// Splitting and joining
// ---------------------------------------------------------------------------------------------

/// The pieces of `s` between occurrences of `sep`, as `str::split` with a char pattern yields
/// them: one more piece than there are separators, empty pieces included.
pub open spec fn spec_split(s: Seq<char>, sep: char) -> Seq<Seq<char>>
    decreases s.len(),
{
    if s.len() == 0 {
        seq![Seq::<char>::empty()]
    } else {
        let rest = spec_split(s.drop_last(), sep);
        if s.last() == sep {
            rest.push(Seq::<char>::empty())
        } else {
            rest.update(rest.len() - 1, rest.last().push(s.last()))
        }
    }
}

pub proof fn lemma_split_nonempty(s: Seq<char>, sep: char)
    ensures
        spec_split(s, sep).len() >= 1,
    decreases s.len(),
{
    if s.len() > 0 {
        lemma_split_nonempty(s.drop_last(), sep);
    }
}

/// The pieces of `v[from..to]` between occurrences of `sep`, each as the bounds of the piece in `v`.
pub fn split_ranges(v: &Vec<char>, from: usize, to: usize, sep: char) -> (r: Vec<(usize, usize)>)
    requires
        from <= to <= v@.len(),
    ensures
        r@.len() == spec_split(v@.subrange(from as int, to as int), sep).len(),
        forall|k: int|
            0 <= k < r@.len() ==> {
                &&& from <= (#[trigger] r@[k]).0 <= r@[k].1 <= to
                &&& v@.subrange(r@[k].0 as int, r@[k].1 as int) == spec_split(
                    v@.subrange(from as int, to as int),
                    sep,
                )[k]
            },
{
    let mut r: Vec<(usize, usize)> = Vec::new();
    let mut start = from;
    let mut i = from;
    while i < to
        invariant
            from <= start <= i <= to <= v@.len(),
            r@.len() + 1 == spec_split(v@.subrange(from as int, i as int), sep).len(),
            forall|k: int|
                0 <= k < r@.len() ==> {
                    &&& from <= (#[trigger] r@[k]).0 <= r@[k].1 <= i
                    &&& v@.subrange(r@[k].0 as int, r@[k].1 as int) == spec_split(
                        v@.subrange(from as int, i as int),
                        sep,
                    )[k]
                },
            v@.subrange(start as int, i as int) == spec_split(
                v@.subrange(from as int, i as int),
                sep,
            ).last(),
        decreases to - i,
    {
        let ghost prev = spec_split(v@.subrange(from as int, i as int), sep);
        let ghost cur = spec_split(v@.subrange(from as int, i + 1), sep);
        assert(v@.subrange(from as int, i + 1).drop_last() =~= v@.subrange(from as int, i as int));
        assert(v@.subrange(from as int, i + 1).last() == v@[i as int]);
        if v[i] == sep {
            r.push((start, i));
            start = i + 1;
            assert(v@.subrange(start as int, i + 1) =~= Seq::<char>::empty());
        } else {
            assert(v@.subrange(start as int, i + 1) =~= v@.subrange(start as int, i as int).push(
                v@[i as int],
            ));
        }
        i = i + 1;
    }
    r.push((start, to));
    r
}

/// `pieces` joined with `sep` between each two of them, as `[T]::join` gives it.
pub open spec fn spec_join(pieces: Seq<Seq<char>>, sep: Seq<char>) -> Seq<char>
    decreases pieces.len(),
{
    if pieces.len() == 0 {
        Seq::<char>::empty()
    } else if pieces.len() == 1 {
        pieces[0]
    } else {
        spec_join(pieces.drop_last(), sep) + sep + pieces.last()
    }
}

// ---------------------------------------------------------------------------------------------
// Lines, as `str::lines` yields them
// ---------------------------------------------------------------------------------------------

/// `s` split after each `'\n'`, the last piece dropped when it is empty (as `split_inclusive`).
pub open spec fn spec_split_inclusive_nl(s: Seq<char>) -> Seq<Seq<char>>
    decreases s.len(),
{
    if s.len() == 0 {
        Seq::<Seq<char>>::empty()
    } else {
        let rest = spec_split_inclusive_nl(s.drop_last());
        if rest.len() == 0 || rest.last().last() == '\n' {
            rest.push(seq![s.last()])
        } else {
            rest.update(rest.len() - 1, rest.last().push(s.last()))
        }
    }
}

/// One piece of `split_inclusive` with its line ending removed: a final `"\n"`, and then a
/// `'\r'` before it.
pub open spec fn spec_strip_line_ending(l: Seq<char>) -> Seq<char> {
    if l.len() > 0 && l.last() == '\n' {
        let l2 = l.drop_last();
        if l2.len() > 0 && l2.last() == '\r' {
            l2.drop_last()
        } else {
            l2
        }
    } else {
        l
    }
}

/// The lines of `s`, as `str::lines` yields them.
pub open spec fn spec_lines(s: Seq<char>) -> Seq<Seq<char>> {
    spec_split_inclusive_nl(s).map_values(|l: Seq<char>| spec_strip_line_ending(l))
}

proof fn lemma_split_inclusive_pieces_nonempty(s: Seq<char>)
    ensures
        forall|k: int|
            0 <= k < spec_split_inclusive_nl(s).len() ==> #[trigger] spec_split_inclusive_nl(
                s,
            )[k].len() > 0,
    decreases s.len(),
{
    if s.len() > 0 {
        lemma_split_inclusive_pieces_nonempty(s.drop_last());
        let rest = spec_split_inclusive_nl(s.drop_last());
        let cur = spec_split_inclusive_nl(s);
        assert forall|k: int| 0 <= k < cur.len() implies #[trigger] cur[k].len() > 0 by {
            if k < rest.len() && k != rest.len() - 1 {
                assert(cur[k] == rest[k]);
            }
        }
    }
}

/// The lines of `v`, each as the bounds in `v` of the line without its line ending.
pub fn line_ranges(v: &Vec<char>) -> (r: Vec<(usize, usize)>)
    ensures
        r@.len() == spec_lines(v@).len(),
        forall|k: int|
            0 <= k < r@.len() ==> {
                &&& (#[trigger] r@[k]).0 <= r@[k].1 <= v@.len()
                &&& v@.subrange(r@[k].0 as int, r@[k].1 as int) == spec_lines(v@)[k]
            },
{
    let mut r: Vec<(usize, usize)> = Vec::new();
    let mut start: usize = 0;
    let mut i: usize = 0;
    while i < v.len()
        invariant
            start <= i <= v@.len(),
            r@.len() + (if start < i { 1int } else { 0int }) == spec_split_inclusive_nl(
                v@.take(i as int),
            ).len(),
            forall|k: int|
                0 <= k < r@.len() ==> {
                    &&& (#[trigger] r@[k]).0 <= r@[k].1 <= i
                    &&& v@.subrange(r@[k].0 as int, r@[k].1 as int) == spec_strip_line_ending(
                        spec_split_inclusive_nl(v@.take(i as int))[k],
                    )
                },
            start < i ==> v@.subrange(start as int, i as int) == spec_split_inclusive_nl(
                v@.take(i as int),
            ).last(),
            start < i ==> v@[i - 1] != '\n',
            start == i ==> (spec_split_inclusive_nl(v@.take(i as int)).len() == 0
                || spec_split_inclusive_nl(v@.take(i as int)).last().last() == '\n'),
        decreases v.len() - i,
    {
        let ghost prev = spec_split_inclusive_nl(v@.take(i as int));
        assert(v@.take(i + 1).drop_last() =~= v@.take(i as int));
        assert(v@.take(i + 1).last() == v@[i as int]);
        proof {
            lemma_split_inclusive_pieces_nonempty(v@.take(i as int));
        }
        if v[i] == '\n' {
            let mut end = i;
            if end > start && v[end - 1] == '\r' {
                end = end - 1;
            }
            proof {
                let piece = v@.subrange(start as int, i + 1);
                let cur = spec_split_inclusive_nl(v@.take(i + 1));
                if start < i {
                    assert(piece =~= prev.last().push('\n'));
                    assert(cur[r@.len() as int] == piece);
                } else {
                    assert(piece =~= seq!['\n']);
                    assert(cur[r@.len() as int] == piece);
                }
                assert(piece.drop_last() =~= v@.subrange(start as int, i as int));
                if end < i {
                    assert(v@.subrange(start as int, i as int).drop_last() =~= v@.subrange(
                        start as int,
                        end as int,
                    ));
                }
                assert(v@.subrange(start as int, end as int) == spec_strip_line_ending(piece));
            }
            r.push((start, end));
            start = i + 1;
        } else {
            proof {
                if start < i {
                    assert(v@.subrange(start as int, i + 1) =~= prev.last().push(v@[i as int]));
                } else {
                    assert(v@.subrange(start as int, i + 1) =~= seq![v@[i as int]]);
                }
            }
        }
        i = i + 1;
    }
    assert(v@.take(v@.len() as int) =~= v@);
    if start < v.len() {
        proof {
            let l = spec_split_inclusive_nl(v@).last();
            assert(l.last() == v@[v@.len() - 1]);
        }
        r.push((start, v.len()));
    }
    r
}

/// The pieces of `v` that `ranges` bound.
pub open spec fn range_pieces(v: Seq<char>, ranges: Seq<(usize, usize)>) -> Seq<Seq<char>> {
    ranges.map_values(|r: (usize, usize)| v.subrange(r.0 as int, r.1 as int))
}

/// The pieces of `v` bounded by `ranges[from..]`, joined with `sep`.
pub fn join_ranges(v: &Vec<char>, ranges: &Vec<(usize, usize)>, from: usize, sep: &str) -> (r: String)
    requires
        from <= ranges@.len(),
        forall|k: int| 0 <= k < ranges@.len() ==> (#[trigger] ranges@[k]).0 <= ranges@[k].1 <= v@.len(),
    ensures
        r@ == spec_join(range_pieces(v@, ranges@).skip(from as int), sep@),
{
    let ghost pieces = range_pieces(v@, ranges@);
    let mut s = String::new();
    let mut i = from;
    assert(pieces.subrange(from as int, from as int) =~= Seq::<Seq<char>>::empty());
    while i < ranges.len()
        invariant
            from <= i <= ranges@.len(),
            pieces == range_pieces(v@, ranges@),
            forall|k: int| 0 <= k < ranges@.len() ==> (#[trigger] ranges@[k]).0 <= ranges@[k].1 <= v@.len(),
            s@ == spec_join(pieces.subrange(from as int, i as int), sep@),
        decreases ranges.len() - i,
    {
        let ghost p = pieces.subrange(from as int, i + 1);
        assert(p.drop_last() =~= pieces.subrange(from as int, i as int));
        assert(p.last() == pieces[i as int]);
        let (a, b) = ranges[i];
        if i > from {
            s.append(sep);
        }
        append_chars(&mut s, v, a, b);
        proof {
            if i == from {
                assert(s@ =~= p[0]);
            } else {
                assert(s@ =~= spec_join(p.drop_last(), sep@) + sep@ + p.last());
            }
        }
        i = i + 1;
    }
    assert(pieces.subrange(from as int, ranges@.len() as int) =~= pieces.skip(from as int));
    s
}

/// The UTF-8 encoding of a concatenation is the concatenation of the encodings.
pub proof fn lemma_encode_utf8_concat(a: Seq<char>, b: Seq<char>)
    ensures
        vstd::utf8::encode_utf8(a + b) == vstd::utf8::encode_utf8(a) + vstd::utf8::encode_utf8(b),
    decreases a.len(),
{
    if a.len() == 0 {
        assert(a + b =~= b);
        assert(vstd::utf8::encode_utf8(a) + vstd::utf8::encode_utf8(b) =~= vstd::utf8::encode_utf8(b));
    } else {
        lemma_encode_utf8_concat(a.drop_first(), b);
        assert((a + b).drop_first() =~= a.drop_first() + b);
        assert((a + b)[0] == a[0]);
        assert(vstd::utf8::encode_utf8(a + b) =~= vstd::utf8::encode_utf8(a) + vstd::utf8::encode_utf8(b));
    }
}

/// The decimal representation of `n` is a nonempty run of decimal digits whose value is `n`.
pub proof fn lemma_decimal_digits(n: nat)
    ensures
        spec_decimal(n).len() > 0,
        all_digits(spec_decimal(n), 10),
        digits_value(spec_decimal(n), 10) == n,
        forall|i: int| 0 <= i < spec_decimal(n).len() ==> '0' <= #[trigger] spec_decimal(n)[i] <= '9',
    decreases n,
{
    if n < 10 {
        let s = spec_decimal(n);
        assert(s.drop_last() =~= Seq::<char>::empty());
        assert(char_digit(digit_char(n), 10) == Some(n));
        assert(s.last() == digit_char(n));
        assert(digits_value(s.drop_last(), 10) == 0);
        assert(digits_value(s, 10) == digits_value(s.drop_last(), 10) * 10 + char_digit(s.last(), 10).unwrap());
    } else {
        lemma_decimal_digits(n / 10);
        let s = spec_decimal(n);
        let d = (n % 10) as nat;
        assert(s.drop_last() =~= spec_decimal(n / 10));
        assert(char_digit(digit_char(d), 10) == Some(d));
        assert(n == (n / 10) * 10 + d);
        assert(s.last() == digit_char(d));
        assert(digits_value(s, 10) == digits_value(s.drop_last(), 10) * 10 + char_digit(s.last(), 10).unwrap());
        assert forall|i: int| 0 <= i < s.len() implies (#[trigger] char_digit(s[i], 10)) is Some by {
            if i < s.len() - 1 {
                assert(s[i] == spec_decimal(n / 10)[i]);
            }
        }
        assert forall|i: int| 0 <= i < s.len() implies '0' <= #[trigger] s[i] <= '9' by {
            if i < s.len() - 1 {
                assert(s[i] == spec_decimal(n / 10)[i]);
            }
        }
    }
}

/// The decimal representation of a number no larger than `max` reads back as that number.
pub proof fn lemma_parse_decimal(n: nat, max: nat)
    requires
        n <= max,
    ensures
        spec_parse_unsigned(spec_decimal(n), 10, max) == Some(n),
{
    lemma_decimal_digits(n);
    assert('0' <= spec_decimal(n)[0] <= '9');
}

/// The index of the first `c` in `s`.
pub open spec fn first_index_of(s: Seq<char>, c: char) -> Option<int>
    decreases s.len(),
{
    if s.len() == 0 {
        None
    } else if s[0] == c {
        Some(0)
    } else {
        match first_index_of(s.drop_first(), c) {
            Some(k) => Some(k + 1),
            None => None,
        }
    }
}

pub proof fn lemma_first_index_of(s: Seq<char>, c: char)
    ensures
        first_index_of(s, c) matches Some(k) ==> 0 <= k < s.len() && s[k] == c && forall|j: int|
            0 <= j < k ==> s[j] != c,
        first_index_of(s, c) is None ==> forall|j: int| 0 <= j < s.len() ==> s[j] != c,
    decreases s.len(),
{
    if s.len() > 0 && s[0] != c {
        lemma_first_index_of(s.drop_first(), c);
        if let Some(k) = first_index_of(s.drop_first(), c) {
            assert forall|j: int| 0 <= j < k + 1 implies s[j] != c by {
                if j > 0 {
                    assert(s[j] == s.drop_first()[j - 1]);
                }
            }
        } else {
            assert forall|j: int| 0 <= j < s.len() implies s[j] != c by {
                if j > 0 {
                    assert(s[j] == s.drop_first()[j - 1]);
                }
            }
        }
    }
}

/// The index of the first `c` in `v`, if it holds one.
pub fn find_char(v: &Vec<char>, c: char) -> (r: Option<usize>)
    ensures
        match r {
            Some(k) => first_index_of(v@, c) == Some(k as int),
            None => first_index_of(v@, c) is None,
        },
{
    let mut i: usize = 0;
    while i < v.len()
        invariant
            i <= v@.len(),
            forall|j: int| 0 <= j < i ==> v@[j] != c,
        decreases v.len() - i,
    {
        if v[i] == c {
            proof {
                lemma_first_index_of(v@, c);
                if let Some(f) = first_index_of(v@, c) {
                    assert(f == i);
                }
            }
            return Some(i);
        }
        i = i + 1;
    }
    proof {
        lemma_first_index_of(v@, c);
        if let Some(f) = first_index_of(v@, c) {
            assert(v@[f] == c);
        }
    }
    None
}

proof fn lemma_split_inclusive_last(a: Seq<char>)
    requires
        a.len() > 0,
    ensures
        spec_split_inclusive_nl(a).len() > 0,
        spec_split_inclusive_nl(a).last().len() > 0,
        spec_split_inclusive_nl(a).last().last() == a.last(),
{
}

proof fn lemma_split_inclusive_concat(a: Seq<char>, b: Seq<char>)
    requires
        a.len() == 0 || a.last() == '\n',
    ensures
        spec_split_inclusive_nl(a + b) == spec_split_inclusive_nl(a) + spec_split_inclusive_nl(b),
    decreases b.len(),
{
    if b.len() == 0 {
        assert(a + b =~= a);
        assert(spec_split_inclusive_nl(a) + spec_split_inclusive_nl(b) =~= spec_split_inclusive_nl(a));
    } else {
        let b2 = b.drop_last();
        lemma_split_inclusive_concat(a, b2);
        assert((a + b).drop_last() =~= a + b2);
        assert((a + b).last() == b.last());
        let ra = spec_split_inclusive_nl(a);
        let rb = spec_split_inclusive_nl(b2);
        let rest = ra + rb;
        if a.len() > 0 {
            lemma_split_inclusive_last(a);
        }
        if rb.len() == 0 {
            assert(rest =~= ra);
        } else {
            assert(rest.last() == rb.last());
        }
        if rest.len() == 0 || rest.last().last() == '\n' {
            assert(rest.push(seq![b.last()]) =~= ra + rb.push(seq![b.last()]));
        } else {
            assert(rest.update(rest.len() - 1, rest.last().push(b.last())) =~= ra + rb.update(
                rb.len() - 1,
                rb.last().push(b.last()),
            ));
        }
    }
}

/// The lines of two texts joined after a line break are the lines of the first followed by
/// those of the second.
pub proof fn lemma_lines_concat(a: Seq<char>, b: Seq<char>)
    requires
        a.len() == 0 || a.last() == '\n',
    ensures
        spec_lines(a + b) == spec_lines(a) + spec_lines(b),
{
    lemma_split_inclusive_concat(a, b);
    assert(spec_lines(a + b) =~= spec_lines(a) + spec_lines(b));
}

proof fn lemma_split_inclusive_no_newline(l: Seq<char>)
    requires
        l.len() > 0,
        forall|k: int| 0 <= k < l.len() ==> l[k] != '\n',
    ensures
        spec_split_inclusive_nl(l) == seq![l],
    decreases l.len(),
{
    let d = l.drop_last();
    if l.len() == 1 {
        assert(d =~= Seq::<char>::empty());
        assert(spec_split_inclusive_nl(d) =~= Seq::<Seq<char>>::empty());
        assert(seq![l.last()] =~= l);
        assert(Seq::<Seq<char>>::empty().push(seq![l.last()]) =~= seq![l]);
    } else {
        assert forall|k: int| 0 <= k < d.len() implies d[k] != '\n' by {
            assert(d[k] == l[k]);
        }
        lemma_split_inclusive_no_newline(d);
        assert(d.last() == l[l.len() - 2]);
        assert(d.push(l.last()) =~= l);
        let rest = seq![d];
        assert(rest.last().last() != '\n');
        assert(rest.update(0, rest.last().push(l.last())) =~= seq![l]);
    }
}

/// A text of one line, ended by a line break, has that one line, without a final `\r`.
pub proof fn lemma_lines_single(l: Seq<char>)
    requires
        forall|k: int| 0 <= k < l.len() ==> l[k] != '\n',
        l.len() == 0 || l.last() != '\r',
    ensures
        spec_lines(l.push('\n')) == seq![l],
{
    let t = l.push('\n');
    assert(t.drop_last() =~= l);
    assert(t.last() == '\n');
    if l.len() == 0 {
        assert(spec_split_inclusive_nl(l) =~= Seq::<Seq<char>>::empty());
        assert(seq![t.last()] =~= t);
        assert(spec_split_inclusive_nl(t) =~= seq![t]);
    } else {
        lemma_split_inclusive_no_newline(l);
        let rest = seq![l];
        assert(rest.last().last() != '\n');
        assert(rest.update(0, rest.last().push(t.last())) =~= seq![t]);
        assert(spec_split_inclusive_nl(t) =~= seq![t]);
    }
    assert(spec_strip_line_ending(t) =~= l);
    assert(spec_lines(t) =~= seq![l]);
}

} // verus!
