//! Text utilities the engine is built on: case-insensitive substring
//! matching (the role-name lookup rule), decimal parsing for catalog records
//! and the edit command, splitting a command line into words, and the small
//! formatting helpers the summaries use.

use vstd::prelude::*;

verus! {

/// True iff `needle` occurs contiguously inside `hay`.
pub open spec fn seq_contains_sub(hay: Seq<char>, needle: Seq<char>) -> bool {
    exists|i: int|
        0 <= i && i + needle.len() <= hay.len() && #[trigger] hay.subrange(i, i + needle.len())
            == needle
}

/// The lowercase form of a character sequence, as `str::to_lowercase`
/// computes it; it depends on the characters alone.
pub uninterp spec fn lower_of(s: Seq<char>) -> Seq<char>;

/// Relies on `str::to_lowercase`: the result is a function of the characters
/// of `s` alone.
#[verifier::external_body]
fn to_lowercase(s: &str) -> (r: String)
    ensures
        r@ == lower_of(s@),
{
    s.to_lowercase()
}

/// Relies on `str::contains`: true iff the pattern string matches a
/// sub-slice of `hay`. A valid UTF-8 sequence occurring inside valid UTF-8
/// always falls on character boundaries, so that sub-slice match is
/// containment of the character sequence.
#[verifier::external_body]
fn str_contains(hay: &str, needle: &str) -> (r: bool)
    ensures
        r == seq_contains_sub(hay@, needle@),
{
    hay.contains(needle)
}

/// Case-insensitive substring test: does the lowercase form of `hay` contain
/// the lowercase form of `needle`?
pub fn contains_ci(hay: &str, needle: &str) -> (r: bool)
    ensures
        r == seq_contains_sub(lower_of(hay@), lower_of(needle@)),
{
    let h = to_lowercase(hay);
    let n = to_lowercase(needle);
    str_contains(h.as_str(), n.as_str())
}

/// String equality, decided through `String`'s `==`.
pub fn string_eq(a: &String, b: &String) -> (r: bool)
    ensures
        r == (a@ == b@),
{
    a.eq(b)
}

/// An ASCII decimal digit.
pub open spec fn is_ascii_digit(c: char) -> bool {
    '0' <= c && c <= '9'
}

/// The numeric value of an ASCII decimal digit.
pub open spec fn digit_val(c: char) -> int {
    c as int - '0' as int
}

/// Every character of `s` is an ASCII decimal digit.
pub open spec fn all_digits(s: Seq<char>) -> bool {
    forall|i: int| 0 <= i < s.len() ==> is_ascii_digit(#[trigger] s[i])
}

/// The value of a digit string read in base 10.
pub open spec fn digits_val(s: Seq<char>) -> int
    decreases s.len(),
{
    if s.len() == 0 {
        0
    } else {
        digits_val(s.drop_last()) * 10 + digit_val(s.last())
    }
}

proof fn lemma_digits_val_nonneg(s: Seq<char>)
    requires
        all_digits(s),
    ensures
        digits_val(s) >= 0,
    decreases s.len(),
{
    if s.len() > 0 {
        assert(all_digits(s.drop_last()));
        lemma_digits_val_nonneg(s.drop_last());
    }
}

proof fn lemma_digits_val_take_grows(s: Seq<char>, k: int)
    requires
        all_digits(s),
        0 <= k <= s.len(),
    ensures
        digits_val(s) >= digits_val(s.take(k)),
    decreases s.len() - k,
{
    if k < s.len() {
        assert(all_digits(s.take(k))) by {
            assert(forall|i: int| 0 <= i < k ==> s.take(k)[i] == #[trigger] s[i]);
        }
        lemma_digits_val_nonneg(s.take(k));
        assert(s.take(k + 1).drop_last() =~= s.take(k));
        assert(s.take(k + 1).last() == s[k]);
        assert(digits_val(s.take(k + 1)) == digits_val(s.take(k)) * 10 + digit_val(s[k]));
        lemma_digits_val_take_grows(s, k + 1);
    } else {
        assert(s.take(k) =~= s);
    }
}

/// An optionally signed decimal literal, read to an unbounded integer:
/// `None` on anything but an optional `+` or `-` followed by one or more
/// ASCII digits.
pub open spec fn spec_parse_signed(s: Seq<char>) -> Option<int> {
    if s.len() >= 1 && (s[0] == '-' || s[0] == '+') {
        if s.len() >= 2 && all_digits(s.skip(1)) {
            if s[0] == '-' {
                Some(-digits_val(s.skip(1)))
            } else {
                Some(digits_val(s.skip(1)))
            }
        } else {
            None
        }
    } else {
        if s.len() >= 1 && all_digits(s) {
            Some(digits_val(s))
        } else {
            None
        }
    }
}

/// What `str::parse::<i32>` accepts: an optionally signed decimal literal
/// whose value fits in an `i32`.
pub open spec fn spec_parse_i32(s: Seq<char>) -> Option<i32> {
    match spec_parse_signed(s) {
        Some(v) => if i32::MIN <= v <= i32::MAX {
            Some(v as i32)
        } else {
            None
        },
        None => None,
    }
}

/// What `str::parse::<u16>` accepts: an optional `+` followed by one or more
/// ASCII digits, whose value fits in a `u16`.
pub open spec fn spec_parse_u16(s: Seq<char>) -> Option<u16> {
    let body = if s.len() >= 1 && s[0] == '+' {
        s.skip(1)
    } else {
        s
    };
    if body.len() >= 1 && all_digits(body) && digits_val(body) <= u16::MAX {
        Some(digits_val(body) as u16)
    } else {
        None
    }
}

/// Reads the digit run `s[start..]`, accumulating its value, and stops with
/// `None` as soon as the value passes `cap` or a non-digit appears.
fn parse_digits_capped(s: &str, start: usize, n: usize, cap: i64) -> (r: Option<i64>)
    requires
        start <= n,
        n == s@.len(),
        0 < cap <= 0x7fff_ffff_ffff,
    ensures
        match r {
            Some(v) => {
                &&& all_digits(s@.subrange(start as int, n as int))
                &&& v == digits_val(s@.subrange(start as int, n as int))
                &&& 0 <= v <= cap
            },
            None => {
                ||| !all_digits(s@.subrange(start as int, n as int))
                ||| digits_val(s@.subrange(start as int, n as int)) > cap
            },
        },
{
    let mut acc: i64 = 0;
    let mut i: usize = start;
    while i < n
        invariant
            start <= i <= n,
            n == s@.len(),
            0 < cap <= 0x7fff_ffff_ffff,
            all_digits(s@.subrange(start as int, i as int)),
            acc == digits_val(s@.subrange(start as int, i as int)),
            0 <= acc <= cap,
        decreases n - i,
    {
        let c = s.get_char(i);
        let cu = c as u32;
        if cu < 48 || cu > 57 {
            assert(!is_ascii_digit(s@[i as int]));
            assert(!all_digits(s@.subrange(start as int, n as int))) by {
                assert(s@.subrange(start as int, n as int)[i - start] == s@[i as int]);
            }
            return None;
        }
        let d = (cu - 48) as i64;
        proof {
            assert(is_ascii_digit(s@[i as int]));
            assert(d == digit_val(s@[i as int]));
            assert(s@.subrange(start as int, (i + 1) as int).drop_last() =~= s@.subrange(
                start as int,
                i as int,
            ));
            assert(s@.subrange(start as int, (i + 1) as int).last() == s@[i as int]);
        }
        acc = acc * 10 + d;
        assert(acc == digits_val(s@.subrange(start as int, (i + 1) as int)));
        i = i + 1;
        if acc > cap {
            proof {
                let whole = s@.subrange(start as int, n as int);
                if all_digits(whole) {
                    lemma_digits_val_take_grows(whole, i - start);
                    assert(whole.take(i - start) =~= s@.subrange(start as int, i as int));
                }
            }
            return None;
        }
    }
    assert(s@.subrange(start as int, n as int) =~= s@.subrange(start as int, i as int));
    Some(acc)
}

/// Parses an `i32` from `s` exactly as `str::parse::<i32>` does.
pub fn parse_i32(s: &str) -> (r: Option<i32>)
    ensures
        r == spec_parse_i32(s@),
{
    let n = s.unicode_len();
    if n == 0 {
        return None;
    }
    let c0 = s.get_char(0);
    let negative = c0 == '-';
    let signed = negative || c0 == '+';
    let start: usize = if signed {
        1
    } else {
        0
    };
    if start == n {
        return None;
    }
    let digits = parse_digits_capped(s, start, n, 2147483648);
    proof {
        if signed {
            assert(s@.skip(1) =~= s@.subrange(1int, n as int));
        } else {
            assert(s@ =~= s@.subrange(0int, n as int));
        }
    }
    match digits {
        None => None,
        Some(v) => {
            if negative {
                Some((-v) as i32)
            } else {
                if v > 2147483647 {
                    None
                } else {
                    Some(v as i32)
                }
            }
        },
    }
}

/// Parses a `u16` from `s` exactly as `str::parse::<u16>` does.
pub fn parse_u16(s: &str) -> (r: Option<u16>)
    ensures
        r == spec_parse_u16(s@),
{
    let n = s.unicode_len();
    if n == 0 {
        return None;
    }
    let c0 = s.get_char(0);
    let start: usize = if c0 == '+' {
        1
    } else {
        0
    };
    if start == n {
        return None;
    }
    let digits = parse_digits_capped(s, start, n, 65535);
    proof {
        if c0 == '+' {
            assert(s@.skip(1) =~= s@.subrange(1int, n as int));
        } else {
            assert(s@ =~= s@.subrange(0int, n as int));
        }
    }
    match digits {
        None => None,
        Some(v) => Some(v as u16),
    }
}

/// `s` split at every occurrence of `sep`, as `str::split` does it: the
/// result always has one part more than `s` has separators, and an empty `s`
/// gives one empty part.
pub open spec fn spec_split(s: Seq<char>, sep: char) -> Seq<Seq<char>>
    decreases s.len(),
{
    if s.len() == 0 {
        seq![Seq::<char>::empty()]
    } else if s[0] == sep {
        seq![Seq::<char>::empty()] + spec_split(s.skip(1), sep)
    } else {
        let rest = spec_split(s.skip(1), sep);
        seq![seq![s[0]] + rest[0]] + rest.skip(1)
    }
}

/// Splitting never yields an empty list: there is always a first part.
pub proof fn lemma_split_len(s: Seq<char>, sep: char)
    ensures
        spec_split(s, sep).len() >= 1,
    decreases s.len(),
{
    if s.len() > 0 {
        lemma_split_len(s.skip(1), sep);
    }
}

/// Splitting decomposes at the first separator: with no separator the whole
/// string is the single part, otherwise the part before the first separator
/// is followed by the split of what comes after it.
proof fn lemma_split_at_first(s: Seq<char>, sep: char, fi: int)
    requires
        0 <= fi <= s.len(),
        forall|j: int| 0 <= j < fi ==> s[j] != sep,
        fi < s.len() ==> s[fi] == sep,
    ensures
        fi == s.len() ==> spec_split(s, sep) == seq![s],
        fi < s.len() ==> spec_split(s, sep) == seq![s.take(fi)] + spec_split(s.skip(fi + 1), sep),
    decreases s.len(),
{
    lemma_split_len(s.skip(1), sep);
    if fi == s.len() {
        if s.len() == 0 {
            assert(s =~= Seq::<char>::empty());
            assert(spec_split(s, sep) =~~= seq![s]);
        } else {
            lemma_split_at_first(s.skip(1), sep, fi - 1);
            let rest = spec_split(s.skip(1), sep);
            assert(rest == seq![s.skip(1)]);
            assert(seq![s[0]] + rest[0] =~= s);
            assert(spec_split(s, sep) =~~= seq![s]);
        }
    } else {
        assert(s.len() > 0);
        if fi == 0 {
            assert(s.take(0) =~= Seq::<char>::empty());
            assert(s.skip(0int + 1) =~= s.skip(1));
            assert(spec_split(s, sep) =~~= seq![s.take(0)] + spec_split(s.skip(1), sep));
        } else {
            lemma_split_at_first(s.skip(1), sep, fi - 1);
            let rest = spec_split(s.skip(1), sep);
            let tail = spec_split(s.skip(1).skip(fi - 1 + 1), sep);
            assert(rest == seq![s.skip(1).take(fi - 1)] + tail);
            assert(rest[0] == s.skip(1).take(fi - 1));
            assert(rest.skip(1) =~= tail);
            assert(seq![s[0]] + s.skip(1).take(fi - 1) =~= s.take(fi));
            assert(s.skip(1).skip(fi) =~= s.skip(fi + 1));
            assert(spec_split(s, sep) =~~= seq![s.take(fi)] + spec_split(s.skip(fi + 1), sep));
        }
    }
}

/// Splits `s` at every space, as the command dispatcher reads a command
/// line.
pub fn split_spaces(s: &str) -> (r: Vec<String>)
    ensures
        r.deep_view() == spec_split(s@, ' '),
{
    let n = s.unicode_len();
    let mut r: Vec<String> = Vec::new();
    let mut p: usize = 0;
    let mut done = false;
    proof {
        assert(s@.subrange(0int, n as int) =~= s@);
        assert(r.deep_view() =~~= Seq::<Seq<char>>::empty());
        assert(Seq::<Seq<char>>::empty() + spec_split(s@, ' ') =~= spec_split(s@, ' '));
    }
    while !done
        invariant
            p <= n,
            n == s@.len(),
            !done ==> spec_split(s@, ' ') == r.deep_view() + spec_split(
                s@.subrange(p as int, n as int),
                ' ',
            ),
            done ==> r.deep_view() == spec_split(s@, ' '),
        decreases (if done {
            0int
        } else {
            1int
        }), n - p,
    {
        let ghost rest = s@.subrange(p as int, n as int);
        let mut i: usize = p;
        while i < n && s.get_char(i) != ' '
            invariant
                p <= i <= n,
                n == s@.len(),
                forall|j: int| p <= j < i ==> s@[j] != ' ',
            decreases n - i,
        {
            i = i + 1;
        }
        let chunk = String::from_str(s.substring_char(p, i));
        proof {
            assert(forall|j: int| 0 <= j < i - p ==> rest[j] == s@[p + j] && s@[p + j] != ' ');
            if i < n {
                assert(rest[i - p] == s@[i as int]);
            }
            lemma_split_at_first(rest, ' ', i - p);
            assert(rest.take(i - p) =~= s@.subrange(p as int, i as int));
        }
        let ghost old_r = r.deep_view();
        r.push(chunk);
        proof {
            assert(r.deep_view() =~~= old_r.push(chunk@));
        }
        if i < n {
            proof {
                assert(rest.skip(i - p + 1) =~= s@.subrange((i + 1) as int, n as int));
                assert(old_r.push(chunk@) + spec_split(
                    s@.subrange((i + 1) as int, n as int),
                    ' ',
                ) =~= old_r + (seq![rest.take(i - p)] + spec_split(rest.skip(i - p + 1), ' ')));
            }
            p = i + 1;
        } else {
            proof {
                assert(chunk@ == rest);
                assert(old_r.push(chunk@) =~= old_r + seq![rest]);
            }
            done = true;
        }
    }
    r
}

/// The decimal digit character for a value between 0 and 9.
pub open spec fn dec_digit_char(d: int) -> char {
    if d == 0 {
        '0'
    } else if d == 1 {
        '1'
    } else if d == 2 {
        '2'
    } else if d == 3 {
        '3'
    } else if d == 4 {
        '4'
    } else if d == 5 {
        '5'
    } else if d == 6 {
        '6'
    } else if d == 7 {
        '7'
    } else if d == 8 {
        '8'
    } else {
        '9'
    }
}

/// The decimal digit string of a non-negative integer, without sign or
/// leading zeros (except for the single digit of zero itself).
pub open spec fn dec_str(n: int) -> Seq<char>
    recommends
        n >= 0,
    decreases n,
{
    if n < 10 {
        seq![dec_digit_char(n)]
    } else {
        dec_str(n / 10).push(dec_digit_char(n % 10))
    }
}

fn digit_str(d: u32) -> (r: &'static str)
    requires
        d < 10,
    ensures
        r@ == seq![dec_digit_char(d as int)],
{
    proof {
        reveal_strlit("0");
        reveal_strlit("1");
        reveal_strlit("2");
        reveal_strlit("3");
        reveal_strlit("4");
        reveal_strlit("5");
        reveal_strlit("6");
        reveal_strlit("7");
        reveal_strlit("8");
        reveal_strlit("9");
    }
    let r = if d == 0 {
        "0"
    } else if d == 1 {
        "1"
    } else if d == 2 {
        "2"
    } else if d == 3 {
        "3"
    } else if d == 4 {
        "4"
    } else if d == 5 {
        "5"
    } else if d == 6 {
        "6"
    } else if d == 7 {
        "7"
    } else if d == 8 {
        "8"
    } else {
        "9"
    };
    proof {
        assert(r@ =~= seq![dec_digit_char(d as int)]);
    }
    r
}

/// Writes `n` in decimal.
pub fn u32_to_string(n: u32) -> (r: String)
    ensures
        r@ == dec_str(n as int),
    decreases n,
{
    if n < 10 {
        String::from_str(digit_str(n))
    } else {
        let mut s = u32_to_string(n / 10);
        s.append(digit_str(n % 10));
        proof {
            assert(dec_str((n / 10) as int) + seq![dec_digit_char((n % 10) as int)] =~= dec_str(
                (n / 10) as int,
            ).push(dec_digit_char((n % 10) as int)));
        }
        s
    }
}

/// `s` padded on the right with spaces up to width `w`; a string at least
/// `w` characters long is kept as it is.
pub open spec fn spec_pad_right(s: Seq<char>, w: int) -> Seq<char> {
    if s.len() >= w {
        s
    } else {
        s + Seq::new((w - s.len()) as nat, |i: int| ' ')
    }
}

/// Pads `s` on the right with spaces up to width `w`.
pub fn pad_right(s: &str, w: usize) -> (r: String)
    ensures
        r@ == spec_pad_right(s@, w as int),
{
    let mut r = String::from_str(s);
    let mut k: usize = s.unicode_len();
    proof {
        reveal_strlit(" ");
        assert(r@ =~= s@ + Seq::new((k - s@.len()) as nat, |i: int| ' '));
    }
    while k < w
        invariant
            k >= s@.len(),
            s@.len() >= w ==> k == s@.len(),
            s@.len() < w ==> k <= w,
            r@ == s@ + Seq::new((k - s@.len()) as nat, |i: int| ' '),
        decreases w - k,
    {
        r.append(" ");
        proof {
            reveal_strlit(" ");
            assert(s@ + Seq::new((k - s@.len()) as nat, |i: int| ' ') + " "@ =~= s@ + Seq::new(
                (k + 1 - s@.len()) as nat,
                |i: int| ' ',
            ));
        }
        k = k + 1;
    }
    proof {
        if s@.len() >= w {
            assert(Seq::new((k - s@.len()) as nat, |i: int| ' ') =~= Seq::<char>::empty());
            assert(r@ =~= s@);
        }
    }
    r
}

} // verus!
