//! Character-level helpers shared by the parsers of this crate: conversions
//! between strings and character vectors, whitespace, lines, tokens, decimal
//! numbers as `str::parse` reads them and as `Display` writes them.
use vstd::prelude::*;

verus! {

broadcast use vstd::seq_lib::group_seq_properties;

/// The characters of `s`, in order.
pub fn chars_of(s: &str) -> (v: Vec<char>)
    ensures
        v@ == s@,
{
    let mut v: Vec<char> = Vec::new();
    for c in it: s.chars()
        invariant
            v@ == it.seq().take(it.index() as int),
    {
        v.push(c);
    }
    v
}

/// `String::from_iter` over characters: the string made of `v`.
#[verifier::external_body]
pub(crate) fn string_from_chars(v: &Vec<char>) -> (s: String)
    ensures
        s@ == v@,
{
    v.iter().collect::<String>()
}

/// `char::is_whitespace`: the Unicode White_Space property.
pub open spec fn is_whitespace(c: char) -> bool {
    let u = c as u32;
    ||| (9 <= u <= 13)
    ||| u == 32
    ||| u == 0x85
    ||| u == 0xA0
    ||| u == 0x1680
    ||| (0x2000 <= u <= 0x200A)
    ||| u == 0x2028
    ||| u == 0x2029
    ||| u == 0x202F
    ||| u == 0x205F
    ||| u == 0x3000
}

/// Whether `c` is Unicode whitespace.
pub fn char_is_whitespace(c: char) -> (b: bool)
    ensures
        b == is_whitespace(c),
{
    let u = c as u32;
    (9 <= u && u <= 13) || u == 32 || u == 0x85 || u == 0xA0 || u == 0x1680 || (0x2000 <= u && u
        <= 0x200A) || u == 0x2028 || u == 0x2029 || u == 0x202F || u == 0x205F || u == 0x3000
}

/// An ASCII decimal digit.
pub open spec fn is_digit(c: char) -> bool {
    '0' <= c && c <= '9'
}

/// Value of an ASCII decimal digit.
pub open spec fn digit_value(c: char) -> nat {
    (c as int - '0' as int) as nat
}

/// Every character is an ASCII decimal digit.
pub open spec fn all_digits(s: Seq<char>) -> bool {
    forall|i: int| 0 <= i < s.len() ==> is_digit(#[trigger] s[i])
}

/// The number that a string of decimal digits writes.
pub open spec fn digits_value(s: Seq<char>) -> nat
    decreases s.len(),
{
    if s.len() == 0 {
        0
    } else {
        digits_value(s.drop_last()) * 10 + digit_value(s.last())
    }
}

/// `str::parse` into an unsigned integer type whose largest value is `max`:
/// an optional `+`, then one or more ASCII digits, writing at most `max`.
pub open spec fn parse_unsigned(s: Seq<char>, max: nat) -> Option<nat> {
    let d = if s.len() > 0 && s[0] == '+' {
        s.drop_first()
    } else {
        s
    };
    if d.len() > 0 && all_digits(d) && digits_value(d) <= max {
        Some(digits_value(d))
    } else {
        None
    }
}

/// `str::parse::<i64>`: an optional sign, then one or more ASCII digits,
/// writing a value in the range of `i64`.
pub open spec fn parse_i64_spec(s: Seq<char>) -> Option<int> {
    if s.len() > 0 && s[0] == '-' {
        let d = s.drop_first();
        if d.len() > 0 && all_digits(d) && digits_value(d) <= 0x8000_0000_0000_0000 {
            Some(-(digits_value(d) as int))
        } else {
            None
        }
    } else {
        match parse_unsigned(s, 0x7FFF_FFFF_FFFF_FFFF) {
            Some(v) => Some(v as int),
            None => None,
        }
    }
}

proof fn lemma_digits_value_grows(s: Seq<char>, k: int)
    requires
        0 <= k <= s.len(),
        all_digits(s),
    ensures
        digits_value(s.take(k)) <= digits_value(s),
    decreases s.len() - k,
{
    if k < s.len() {
        lemma_digits_value_grows(s, k + 1);
        assert(s.take(k + 1).drop_last() =~= s.take(k));
        assert(is_digit(s[k]));
    }
}

/// The value of the digits `s[lo..hi]` when they are all digits and the value
/// is at most `max`.
fn digits_in_range(s: &Vec<char>, lo: usize, hi: usize, max: u64) -> (r: Option<u64>)
    requires
        lo <= hi <= s.len(),
        max >= 9,
    ensures
        r == (if all_digits(s@.subrange(lo as int, hi as int)) && digits_value(
            s@.subrange(lo as int, hi as int),
        ) <= max {
            Some(digits_value(s@.subrange(lo as int, hi as int)) as u64)
        } else {
            None::<u64>
        }),
{
    let ghost full = s@.subrange(lo as int, hi as int);
    let mut v: u64 = 0;
    let mut i = lo;
    while i < hi
        invariant
            lo <= i <= hi <= s.len(),
            full == s@.subrange(lo as int, hi as int),
            all_digits(s@.subrange(lo as int, i as int)),
            v == digits_value(s@.subrange(lo as int, i as int)),
            v <= max,
            max >= 9,
        decreases hi - i,
    {
        let c = s[i];
        assert(s@.subrange(lo as int, i + 1).drop_last() =~= s@.subrange(lo as int, i as int));
        assert(s@.subrange(lo as int, i + 1).last() == c);
        if !('0' <= c && c <= '9') {
            assert(full[i - lo] == c);
            return None;
        }
        let cu = c as u32;
        assert(48 <= cu <= 57);
        let d = (cu - 48) as u64;
        assert(d == digit_value(c));
        if v > (max - d) / 10 {
            proof {
                assert(v * 10 + d > max) by (nonlinear_arith)
                    requires
                        v > (max - d) / 10,
                        d <= 9,
                        d <= max,
                ;
                if all_digits(full) {
                    assert(full.take(i + 1 - lo) =~= s@.subrange(lo as int, i + 1));
                    lemma_digits_value_grows(full, i + 1 - lo);
                }
            }
            return None;
        }
        proof {
            assert(v * 10 + d <= max) by (nonlinear_arith)
                requires
                    v <= (max - d) / 10,
                    d <= max,
            ;
        }
        v = v * 10 + d;
        i = i + 1;
    }
    Some(v)
}

/// Reads `s[lo..hi]` as `str::parse::<usize>` does.
pub fn parse_usize_range(s: &Vec<char>, lo: usize, hi: usize) -> (r: Option<usize>)
    requires
        lo <= hi <= s.len(),
    ensures
        r matches Some(v) ==> parse_unsigned(s@.subrange(lo as int, hi as int), usize::MAX as nat)
            == Some(v as nat),
        r is None ==> parse_unsigned(s@.subrange(lo as int, hi as int), usize::MAX as nat) is None,
{
    let ghost t = s@.subrange(lo as int, hi as int);
    let mut start = lo;
    if lo < hi && s[lo] == '+' {
        start = lo + 1;
        assert(t.drop_first() =~= s@.subrange(start as int, hi as int));
    } else {
        assert(t =~= s@.subrange(start as int, hi as int));
    }
    if start == hi {
        return None;
    }
    match digits_in_range(s, start, hi, usize::MAX as u64) {
        Some(v) => Some(v as usize),
        None => None,
    }
}

/// Reads `s[lo..hi]` as `str::parse::<i64>` does.
pub fn parse_i64_range(s: &Vec<char>, lo: usize, hi: usize) -> (r: Option<i64>)
    requires
        lo <= hi <= s.len(),
    ensures
        r matches Some(v) ==> parse_i64_spec(s@.subrange(lo as int, hi as int)) == Some(v as int),
        r is None ==> parse_i64_spec(s@.subrange(lo as int, hi as int)) is None,
{
    let ghost t = s@.subrange(lo as int, hi as int);
    if lo < hi && s[lo] == '-' {
        assert(t.drop_first() =~= s@.subrange(lo + 1, hi as int));
        if lo + 1 == hi {
            return None;
        }
        match digits_in_range(s, lo + 1, hi, 0x8000_0000_0000_0000u64) {
            Some(v) => {
                if v == 0x8000_0000_0000_0000u64 {
                    Some(i64::MIN)
                } else {
                    Some(-(v as i64))
                }
            },
            None => None,
        }
    } else {
        let mut start = lo;
        if lo < hi && s[lo] == '+' {
            start = lo + 1;
            assert(t.drop_first() =~= s@.subrange(start as int, hi as int));
        } else {
            assert(t =~= s@.subrange(start as int, hi as int));
        }
        if start == hi {
            return None;
        }
        match digits_in_range(s, start, hi, 0x7FFF_FFFF_FFFF_FFFFu64) {
            Some(v) => Some(v as i64),
            None => None,
        }
    }
}

/// The decimal digit character for `d < 10`.
pub open spec fn digit_char(d: nat) -> char {
    ('0' as int + d) as char
}

/// `Display` of a non-negative integer: its decimal digits, without leading zeros.
pub open spec fn decimal(n: nat) -> Seq<char>
    decreases n,
{
    if n < 10 {
        seq![digit_char(n)]
    } else {
        decimal(n / 10).push(digit_char(n % 10))
    }
}

/// Appends the decimal digits of `n` to `out`.
pub fn push_decimal(out: &mut Vec<char>, n: u64)
    ensures
        final(out)@ == old(out)@ + decimal(n as nat),
    decreases n,
{
    if n >= 10 {
        push_decimal(out, n / 10);
    }
    let d = (n % 10) as u8;
    let c = (48u8 + d) as char;
    proof {
        assert(c == digit_char((n % 10) as nat));
    }
    out.push(c);
}

/// Appends the characters of `s` to `out`.
pub fn push_str(out: &mut Vec<char>, s: &str)
    ensures
        final(out)@ == old(out)@ + s@,
{
    let ghost start = out@;
    for c in it: s.chars()
        invariant
            out@ == start + it.seq().take(it.index() as int),
    {
        out.push(c);
    }
}


/// Position of the first line feed in `s`, or its length when it has none.
pub open spec fn newline_index(s: Seq<char>) -> nat
    decreases s.len(),
{
    if s.len() == 0 {
        0
    } else if s[0] == '\n' {
        0
    } else {
        1 + newline_index(s.drop_first())
    }
}

/// `newline_index` is the first line feed, or the length.
pub proof fn lemma_newline_index(s: Seq<char>)
    ensures
        newline_index(s) <= s.len(),
        newline_index(s) < s.len() ==> s[newline_index(s) as int] == '\n',
        forall|k: int| 0 <= k < newline_index(s) ==> s[k] != '\n',
    decreases s.len(),
{
    if s.len() > 0 && s[0] != '\n' {
        lemma_newline_index(s.drop_first());
        assert forall|k: int| 0 <= k < newline_index(s) implies s[k] != '\n' by {
            if k > 0 {
                assert(s[k] == s.drop_first()[k - 1]);
            }
        }
    }
}

/// Any position that is a first line feed (or the length, when there is
/// none) is `newline_index`.
pub proof fn lemma_newline_index_is(s: Seq<char>, e: int)
    requires
        0 <= e <= s.len(),
        e < s.len() ==> s[e] == '\n',
        forall|k: int| 0 <= k < e ==> s[k] != '\n',
    ensures
        newline_index(s) == e,
{
    lemma_newline_index(s);
    if newline_index(s) < e {
        assert(s[newline_index(s) as int] == '\n');
    } else if newline_index(s) > e {
        assert(s[e] != '\n');
    }
}

/// `str::lines`: the pieces between line feeds; a final line feed does not
/// open one more line. (A carriage return before a line feed stays in its
/// line; it is whitespace.)
pub open spec fn split_lines(s: Seq<char>) -> Seq<Seq<char>>
    decreases s.len(),
{
    if s.len() == 0 {
        seq![]
    } else {
        let e = newline_index(s);
        if e >= s.len() {
            seq![s]
        } else {
            proof {
                lemma_newline_index(s);
            }
            seq![s.take(e as int)] + split_lines(s.skip(e as int + 1))
        }
    }
}

/// `s` begins with `p`.
pub open spec fn starts_with(s: Seq<char>, p: Seq<char>) -> bool {
    p.len() <= s.len() && s.take(p.len() as int) == p
}

/// The rest of the first line that begins with `p`, after `p`.
pub open spec fn first_with_prefix(lines: Seq<Seq<char>>, p: Seq<char>) -> Option<Seq<char>>
    decreases lines.len(),
{
    if lines.len() == 0 {
        None
    } else if starts_with(lines[0], p) {
        Some(lines[0].skip(p.len() as int))
    } else {
        first_with_prefix(lines.drop_first(), p)
    }
}

/// `s` without its leading whitespace.
pub open spec fn skip_whitespace(s: Seq<char>) -> Seq<char>
    decreases s.len(),
{
    if s.len() > 0 && is_whitespace(s[0]) {
        skip_whitespace(s.drop_first())
    } else {
        s
    }
}

/// Length of the leading run of non-whitespace characters.
pub open spec fn token_len(s: Seq<char>) -> nat
    decreases s.len(),
{
    if s.len() == 0 || is_whitespace(s[0]) {
        0
    } else {
        1 + token_len(s.drop_first())
    }
}

/// `s.split_whitespace().next()`: the first whitespace-separated token.
pub open spec fn first_token(s: Seq<char>) -> Option<Seq<char>> {
    let t = skip_whitespace(s);
    if t.len() == 0 {
        None
    } else {
        Some(t.take(token_len(t) as int))
    }
}

/// First position at or after `from` and before `to` that holds a line
/// feed, or `to`.
pub fn find_newline(s: &Vec<char>, from: usize, to: usize) -> (e: usize)
    requires
        from <= to <= s.len(),
    ensures
        from <= e <= to,
        e < to ==> s@[e as int] == '\n',
        forall|k: int| from <= k < e ==> s@[k] != '\n',
{
    let mut e = from;
    while e < to && s[e] != '\n'
        invariant
            from <= e <= to <= s.len(),
            forall|k: int| from <= k < e ==> s@[k] != '\n',
        decreases to - e,
    {
        e = e + 1;
    }
    e
}

/// The lines of `s` from a line start `i` on: the line up to the next line
/// feed `e`, then the lines after it.
pub proof fn lemma_split_lines_at(s: Seq<char>, i: int, e: int)
    requires
        0 <= i < s.len(),
        i <= e <= s.len(),
        e < s.len() ==> s[e] == '\n',
        forall|k: int| i <= k < e ==> s[k] != '\n',
    ensures
        split_lines(s.skip(i)) == seq![s.subrange(i, e)] + (if e < s.len() {
            split_lines(s.skip(e + 1))
        } else {
            Seq::<Seq<char>>::empty()
        }),
{
    let t = s.skip(i);
    assert forall|k: int| 0 <= k < e - i implies t[k] != '\n' by {
        assert(t[k] == s[i + k]);
    }
    if e < s.len() {
        assert(t[e - i] == s[e]);
    }
    lemma_newline_index_is(t, e - i);
    if e < s.len() {
        assert(t.take(e - i) =~= s.subrange(i, e));
        assert(t.skip(e - i + 1) =~= s.skip(e + 1));
    } else {
        assert(t =~= s.subrange(i, e));
        assert(seq![t] =~= seq![t] + Seq::<Seq<char>>::empty());
    }
}

/// Whether `s[i..end]` begins with the characters of `p`.
pub fn has_prefix_at(s: &Vec<char>, i: usize, end: usize, p: &str) -> (b: bool)
    requires
        i <= end <= s.len(),
    ensures
        b == starts_with(s@.subrange(i as int, end as int), p@),
{
    let pv = chars_of(p);
    let ghost sub = s@.subrange(i as int, end as int);
    if pv.len() > end - i {
        return false;
    }
    let mut k: usize = 0;
    while k < pv.len()
        invariant
            i <= end <= s.len(),
            pv@ == p@,
            pv.len() <= end - i,
            sub == s@.subrange(i as int, end as int),
            k <= pv.len(),
            forall|j: int| 0 <= j < k ==> s@[i + j] == pv@[j],
        decreases pv.len() - k,
    {
        if s[i + k] != pv[k] {
            proof {
                assert(sub.take(pv.len() as int)[k as int] == s@[i + k]);
            }
            return false;
        }
        k = k + 1;
    }
    proof {
        assert(sub.take(pv.len() as int) =~= pv@);
    }
    true
}

/// The first whitespace-separated token of `s[lo..hi]`, as the range it spans.
pub fn first_token_range(s: &Vec<char>, lo: usize, hi: usize) -> (r: Option<(usize, usize)>)
    requires
        lo <= hi <= s.len(),
    ensures
        match r {
            Some((a, b)) => lo <= a < b <= hi && first_token(s@.subrange(lo as int, hi as int)) == Some(
                s@.subrange(a as int, b as int),
            ),
            None => first_token(s@.subrange(lo as int, hi as int)) is None,
        },
{
    let mut a = lo;
    while a < hi && char_is_whitespace(s[a])
        invariant
            lo <= a <= hi <= s.len(),
            skip_whitespace(s@.subrange(lo as int, hi as int)) == skip_whitespace(
                s@.subrange(a as int, hi as int),
            ),
        decreases hi - a,
    {
        assert(s@.subrange(a as int, hi as int).drop_first() =~= s@.subrange(a + 1, hi as int));
        a = a + 1;
    }
    let ghost t = s@.subrange(a as int, hi as int);
    assert(skip_whitespace(t) == t);
    if a == hi {
        return None;
    }
    let mut b = a;
    while b < hi && !char_is_whitespace(s[b])
        invariant
            lo <= a <= b <= hi <= s.len(),
            t == s@.subrange(a as int, hi as int),
            token_len(t) == (b - a) + token_len(s@.subrange(b as int, hi as int)),
        decreases hi - b,
    {
        assert(s@.subrange(b as int, hi as int).drop_first() =~= s@.subrange(b + 1, hi as int));
        b = b + 1;
    }
    assert(t.take(b - a) =~= s@.subrange(a as int, b as int));
    Some((a, b))
}

} // verus!
