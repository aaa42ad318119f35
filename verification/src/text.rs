//! Character-level building blocks shared by the text formats of this crate:
//! white space, trimming, searching, and decimal numbers.

use crate::search::{first_where, lemma_first_where, lemma_first_where_is};
use vstd::prelude::*;
use vstd::utf8::{decode_utf8, valid_utf8};

verus! {

/// Whether `c` carries the Unicode `White_Space` property.
pub open spec fn is_white_space(c: char) -> bool {
    let u = c as u32;
    ||| 0x09 <= u <= 0x0d
    ||| u == 0x20
    ||| u == 0x85
    ||| u == 0xa0
    ||| u == 0x1680
    ||| 0x2000 <= u <= 0x200a
    ||| u == 0x2028
    ||| u == 0x2029
    ||| u == 0x202f
    ||| u == 0x205f
    ||| u == 0x3000
}

/// `s` without its leading white space.
pub open spec fn trim_start(s: Seq<char>) -> Seq<char>
    decreases s.len(),
{
    if s.len() > 0 && is_white_space(s.first()) {
        trim_start(s.drop_first())
    } else {
        s
    }
}

/// `s` without its trailing white space.
pub open spec fn trim_end(s: Seq<char>) -> Seq<char>
    decreases s.len(),
{
    if s.len() > 0 && is_white_space(s.last()) {
        trim_end(s.drop_last())
    } else {
        s
    }
}

/// `s` without its leading and trailing white space.
pub open spec fn trimmed(s: Seq<char>) -> Seq<char> {
    trim_end(trim_start(s))
}

/// The property of being the character `c`.
pub open spec fn is_char(c: char) -> spec_fn(char) -> bool {
    |x: char| x == c
}

/// The position of the first `c` in `s`, or `s.len()` where `s` holds none.
pub open spec fn index_of(s: Seq<char>, c: char) -> int {
    first_where(s, is_char(c))
}

/// Whether `c` is one of the ten decimal digits.
pub open spec fn is_digit(c: char) -> bool {
    '0' <= c <= '9'
}

/// The number that the decimal digit `c` stands for.
pub open spec fn digit_value(c: char) -> nat {
    (c as u32 - '0' as u32) as nat
}

/// Whether `s` holds decimal digits only.
pub open spec fn all_digits(s: Seq<char>) -> bool {
    forall|i: int| 0 <= i < s.len() ==> is_digit(#[trigger] s[i])
}

/// The number that the digit string `s` denotes in base ten; 0 for the empty string.
pub open spec fn digits_value(s: Seq<char>) -> nat
    decreases s.len(),
{
    if s.len() == 0 {
        0
    } else {
        digits_value(s.drop_last()) * 10 + digit_value(s.last())
    }
}

/// The number written as one or more decimal digits, if `s` is written so.
pub open spec fn plain_number(s: Seq<char>) -> Option<nat> {
    if s.len() > 0 && all_digits(s) {
        Some(digits_value(s))
    } else {
        None
    }
}

/// The number written as an optional `+` and one or more decimal digits.
pub open spec fn unsigned_number(s: Seq<char>) -> Option<nat> {
    if s.len() > 0 && s.first() == '+' {
        plain_number(s.drop_first())
    } else {
        plain_number(s)
    }
}

/// The number written as an optional `+` or `-` and one or more decimal digits.
pub open spec fn signed_number(s: Seq<char>) -> Option<int> {
    if s.len() > 0 && s.first() == '-' {
        match plain_number(s.drop_first()) {
            Some(v) => Some(-(v as int)),
            None => None,
        }
    } else {
        match unsigned_number(s) {
            Some(v) => Some(v as int),
            None => None,
        }
    }
}

/// What `s` denotes as an unsigned 32-bit number: none where it is not a
/// number or does not fit.
pub open spec fn parsed_u32(s: Seq<char>) -> Option<u32> {
    match unsigned_number(s) {
        Some(v) => if v <= u32::MAX {
            Some(v as u32)
        } else {
            None
        },
        None => None,
    }
}

/// What `s` denotes as a signed 32-bit number: none where it is not a number
/// or does not fit.
pub open spec fn parsed_i32(s: Seq<char>) -> Option<i32> {
    match signed_number(s) {
        Some(v) => if i32::MIN <= v <= i32::MAX {
            Some(v as i32)
        } else {
            None
        },
        None => None,
    }
}

/// What `s` denotes as an unsigned number of the machine's word size: none
/// where it is not a number or does not fit.
pub open spec fn parsed_usize(s: Seq<char>) -> Option<usize> {
    match unsigned_number(s) {
        Some(v) => if v <= usize::MAX {
            Some(v as usize)
        } else {
            None
        },
        None => None,
    }
}

/// The property of being white space.
pub open spec fn blank() -> spec_fn(char) -> bool {
    |c: char| is_white_space(c)
}

/// The words of `s`: its longest stretches without white space, in their
/// order.
pub open spec fn words(s: Seq<char>) -> Seq<Seq<char>>
    decreases s.len(),
{
    let t = trim_start(s);
    let n = first_where(t, blank());
    if t.len() == 0 {
        Seq::empty()
    } else {
        proof {
            lemma_trim_start(s);
            lemma_first_where(t, blank());
        }
        seq![t.take(n)] + words(t.skip(n))
    }
}

/// The texts held by `parts`, in their order.
pub open spec fn part_texts(parts: Seq<&[char]>) -> Seq<Seq<char>> {
    parts.map_values(|w: &[char]| w@)
}

/// What is left when leading white space is taken off is the end of the
/// text, it does not begin with white space, and only white space was taken
/// off.
pub proof fn lemma_trim_start(s: Seq<char>)
    ensures
        trim_start(s).len() <= s.len(),
        trim_start(s) == s.skip(s.len() - trim_start(s).len()),
        trim_start(s).len() > 0 ==> !is_white_space(trim_start(s).first()),
        forall|k: int| 0 <= k < s.len() - trim_start(s).len() ==> is_white_space(#[trigger] s[k]),
    decreases s.len(),
{
    if s.len() > 0 && is_white_space(s.first()) {
        let t = s.drop_first();
        lemma_trim_start(t);
        assert(t.skip(t.len() - trim_start(t).len()) =~= s.skip(s.len() - trim_start(s).len()));
        assert forall|k: int| 0 <= k < s.len() - trim_start(s).len() implies is_white_space(
            #[trigger] s[k],
        ) by {
            if k > 0 {
                assert(s[k] == t[k - 1]);
            }
        }
    } else {
        assert(s.skip(0) =~= s);
    }
}

/// What is left when trailing white space is taken off is the beginning of
/// the text, it does not end with white space, and only white space was
/// taken off.
pub proof fn lemma_trim_end(s: Seq<char>)
    ensures
        trim_end(s).len() <= s.len(),
        trim_end(s) == s.take(trim_end(s).len() as int),
        trim_end(s).len() > 0 ==> !is_white_space(trim_end(s).last()),
        forall|k: int| trim_end(s).len() <= k < s.len() ==> is_white_space(#[trigger] s[k]),
    decreases s.len(),
{
    if s.len() > 0 && is_white_space(s.last()) {
        let t = s.drop_last();
        lemma_trim_end(t);
        assert(t.take(trim_end(t).len() as int) =~= s.take(trim_end(s).len() as int));
        assert forall|k: int| trim_end(s).len() <= k < s.len() implies is_white_space(
            #[trigger] s[k],
        ) by {
            if k < t.len() {
                assert(s[k] == t[k]);
            }
        }
    } else {
        assert(s.take(s.len() as int) =~= s);
    }
}

/// Trimming cuts a text down to the part between its leading and its
/// trailing white space: what is cut off at either end is white space, and
/// what is left neither begins nor ends with white space.
pub proof fn lemma_trimmed(s: Seq<char>)
    ensures
        exists|a: int, b: int|
            {
                &&& 0 <= a <= b <= s.len()
                &&& trimmed(s) == #[trigger] s.subrange(a, b)
                &&& forall|k: int| 0 <= k < a ==> is_white_space(#[trigger] s[k])
                &&& forall|k: int| b <= k < s.len() ==> is_white_space(#[trigger] s[k])
            },
        trimmed(s).len() > 0 ==> !is_white_space(trimmed(s).first()) && !is_white_space(
            trimmed(s).last(),
        ),
{
    lemma_trim_start(s);
    let t = trim_start(s);
    lemma_trim_end(t);
    let a = s.len() - t.len();
    let b = a + trimmed(s).len();
    assert(trimmed(s) =~= s.subrange(a, b));
    assert forall|k: int| b <= k < s.len() implies is_white_space(#[trigger] s[k]) by {
        assert(s[k] == t[k - a]);
    }
    if trimmed(s).len() > 0 {
        assert(trimmed(s).first() == t.first());
    }
}

/// The character that writes the digit `d`.
pub open spec fn digit_char(d: nat) -> char {
    (0x30 + d) as u8 as char
}

/// `n` written in base ten, without leading zeros.
pub open spec fn decimal(n: nat) -> Seq<char>
    decreases n,
{
    if n < 10 {
        seq![digit_char(n)]
    } else {
        decimal(n / 10).push(digit_char(n % 10))
    }
}

/// `v` written in base ten, with a `-` before it where it is negative.
pub open spec fn signed_decimal(v: int) -> Seq<char> {
    if v < 0 {
        seq!['-'] + decimal((-v) as nat)
    } else {
        decimal(v as nat)
    }
}

/// A digit string denotes at least what any of its prefixes denotes.
pub proof fn lemma_digits_value_prefix(s: Seq<char>, k: int)
    requires
        0 <= k <= s.len(),
    ensures
        digits_value(s.take(k)) <= digits_value(s),
    decreases s.len(),
{
    if k == s.len() {
        assert(s.take(k) =~= s);
    } else {
        lemma_digits_value_prefix(s.drop_last(), k);
        assert(s.drop_last().take(k) =~= s.take(k));
    }
}

/// `digit_char` writes a digit, and that digit stands for the number written.
pub proof fn lemma_digit_char(d: nat)
    requires
        d < 10,
    ensures
        is_digit(digit_char(d)),
        digit_value(digit_char(d)) == d,
{
}

/// What `decimal` writes is read back as the number written.
pub proof fn lemma_decimal_round_trip(n: nat)
    ensures
        plain_number(decimal(n)) == Some(n),
        decimal(n).first() != '+',
        decimal(n).first() != '-',
    decreases n,
{
    if n < 10 {
        lemma_digit_char(n);
        let whole = decimal(n);
        assert(whole.drop_last() =~= Seq::<char>::empty());
        assert(digits_value(whole.drop_last()) == 0);
        assert(whole.last() == digit_char(n));
        assert(digits_value(whole) == n);
    } else {
        lemma_decimal_round_trip(n / 10);
        lemma_digit_char(n % 10);
        let head = decimal(n / 10);
        let whole = decimal(n);
        assert(whole.drop_last() =~= head);
        assert(whole.last() == digit_char(n % 10));
        assert(whole.first() == head.first());
        assert(digits_value(whole) == digits_value(head) * 10 + n % 10);
        assert forall|i: int| 0 <= i < whole.len() implies is_digit(#[trigger] whole[i]) by {
            if i < head.len() {
                assert(whole[i] == head[i]);
            }
        }
    }
}

/// What `signed_decimal` writes is read back as the number written.
pub proof fn lemma_signed_decimal_round_trip(v: int)
    ensures
        signed_number(signed_decimal(v)) == Some(v),
{
    if v < 0 {
        lemma_decimal_round_trip((-v) as nat);
        assert(signed_decimal(v).drop_first() =~= decimal((-v) as nat));
    } else {
        lemma_decimal_round_trip(v as nat);
    }
}

/// Whether `c` is white space.
pub fn is_whitespace(c: char) -> (r: bool)
    ensures
        r == is_white_space(c),
{
    let u: u32 = c as u32;
    (0x09 <= u && u <= 0x0d) || u == 0x20 || u == 0x85 || u == 0xa0 || u == 0x1680 || (0x2000 <= u
        && u <= 0x200a) || u == 0x2028 || u == 0x2029 || u == 0x202f || u == 0x205f || u == 0x3000
}

/// The part of `s` between its leading and its trailing white space.
pub fn trim(s: &[char]) -> (r: &[char])
    ensures
        r@ == trimmed(s@),
{
    let mut start: usize = 0;
    assert(s@.skip(0) =~= s@);
    while start < s.len() && is_whitespace(s[start])
        invariant
            start <= s.len(),
            trim_start(s@) == trim_start(s@.skip(start as int)),
        decreases s.len() - start,
    {
        assert(s@.skip(start as int).drop_first() =~= s@.skip(start as int + 1));
        start += 1;
    }
    let mut end: usize = s.len();
    assert(s@.skip(start as int) =~= s@.subrange(start as int, end as int));
    while end > start && is_whitespace(s[end - 1])
        invariant
            start <= end <= s.len(),
            trim_start(s@) == s@.skip(start as int),
            trimmed(s@) == trim_end(s@.subrange(start as int, end as int)),
        decreases end,
    {
        assert(s@.subrange(start as int, end as int).drop_last() =~= s@.subrange(
            start as int,
            end as int - 1,
        ));
        end -= 1;
    }
    &s[start..end]
}

/// The position of the first `c` in `s`, or the length of `s`.
pub fn find_char(s: &[char], c: char) -> (r: usize)
    ensures
        r == index_of(s@, c),
        r <= s.len(),
{
    let mut i: usize = 0;
    while i < s.len() && s[i] != c
        invariant
            i <= s.len(),
            forall|k: int| 0 <= k < i ==> s@[k] != c,
        decreases s.len() - i,
    {
        i += 1;
    }
    proof {
        lemma_first_where_is(s@, is_char(c), i as int);
    }
    i
}

/// Whether the two texts are the same.
pub fn same_text(a: &[char], b: &[char]) -> (r: bool)
    ensures
        r == (a@ == b@),
{
    if a.len() != b.len() {
        return false;
    }
    let mut i: usize = 0;
    while i < a.len()
        invariant
            i <= a.len(),
            a.len() == b.len(),
            forall|k: int| 0 <= k < i ==> a@[k] == b@[k],
        decreases a.len() - i,
    {
        if a[i] != b[i] {
            return false;
        }
        i += 1;
    }
    assert(a@ =~= b@);
    true
}

/// Reads `s` as one or more decimal digits that denote a number up to `limit`.
pub fn parse_digits(s: &[char], limit: u64) -> (r: Option<u64>)
    ensures
        r == match plain_number(s@) {
            Some(v) => if v <= limit {
                Some(v as u64)
            } else {
                None
            },
            None => None,
        },
{
    if s.len() == 0 {
        return None;
    }
    let mut acc: u128 = 0;
    let mut i: usize = 0;
    while i < s.len()
        invariant
            i <= s.len(),
            all_digits(s@.take(i as int)),
            acc == digits_value(s@.take(i as int)),
            acc <= limit,
        decreases s.len() - i,
    {
        let c = s[i];
        if !('0' <= c && c <= '9') {
            assert(!is_digit(s@[i as int]));
            return None;
        }
        let d: u128 = (c as u32 - '0' as u32) as u128;
        let next: u128 = acc * 10 + d;
        proof {
            let t = s@.take(i as int + 1);
            assert(t.drop_last() =~= s@.take(i as int));
            assert(t.last() == c);
            assert(next == digits_value(t));
            assert forall|k: int| 0 <= k < t.len() implies is_digit(#[trigger] t[k]) by {
                if k < i {
                    assert(t[k] == s@.take(i as int)[k]);
                }
            }
        }
        if next > limit as u128 {
            proof {
                lemma_digits_value_prefix(s@, i as int + 1);
            }
            return None;
        }
        acc = next;
        i += 1;
    }
    assert(s@.take(i as int) =~= s@);
    Some(acc as u64)
}

/// Reads `s` as an unsigned 32-bit decimal number.
pub fn parse_u32(s: &[char]) -> (r: Option<u32>)
    ensures
        r == parsed_u32(s@),
{
    let body = if s.len() > 0 && s[0] == '+' {
        assert(s@.subrange(1, s.len() as int) =~= s@.drop_first());
        &s[1..s.len()]
    } else {
        s
    };
    match parse_digits(body, 0xffff_ffff) {
        Some(v) => Some(v as u32),
        None => None,
    }
}

/// Reads `s` as an unsigned decimal number of the machine's word size.
pub fn parse_usize(s: &[char]) -> (r: Option<usize>)
    ensures
        r == parsed_usize(s@),
{
    let body = if s.len() > 0 && s[0] == '+' {
        assert(s@.subrange(1, s.len() as int) =~= s@.drop_first());
        &s[1..s.len()]
    } else {
        s
    };
    match parse_digits(body, usize::MAX as u64) {
        Some(v) => Some(v as usize),
        None => None,
    }
}

/// The words of `s`, in their order.
pub fn split_words(s: &[char]) -> (r: Vec<&[char]>)
    ensures
        part_texts(r@) == words(s@),
{
    let mut found: Vec<&[char]> = Vec::new();
    let mut i: usize = 0;
    assert(s@.skip(0) =~= s@);
    loop
        invariant_except_break
            i <= s.len(),
            words(s@) == part_texts(found@) + words(s@.skip(i as int)),
        ensures
            part_texts(found@) == words(s@),
        decreases s.len() - i,
    {
        let mut start: usize = i;
        while start < s.len() && is_whitespace(s[start])
            invariant
                i <= start <= s.len(),
                trim_start(s@.skip(i as int)) == trim_start(s@.skip(start as int)),
            decreases s.len() - start,
        {
            assert(s@.skip(start as int).drop_first() =~= s@.skip(start as int + 1));
            start += 1;
        }
        let ghost t = s@.skip(start as int);
        assert(trim_start(s@.skip(i as int)) == t);
        if start >= s.len() {
            assert(part_texts(found@) + Seq::<Seq<char>>::empty() =~= part_texts(found@));
            break;
        }
        let mut end: usize = start;
        while end < s.len() && !is_whitespace(s[end])
            invariant
                start <= end <= s.len(),
                forall|k: int| start <= k < end ==> !is_white_space(s@[k]),
            decreases s.len() - end,
        {
            end += 1;
        }
        proof {
            assert forall|k: int| 0 <= k < end - start implies !blank()(#[trigger] t[k]) by {
                assert(t[k] == s@[start + k]);
            }
            lemma_first_where_is(t, blank(), end - start);
            assert(t.skip(end - start) =~= s@.skip(end as int));
        }
        let ghost before = part_texts(found@);
        let word = &s[start..end];
        assert(word@ =~= t.take(end - start));
        found.push(word);
        assert(part_texts(found@) =~= before.push(word@));
        assert(before + (seq![word@] + words(s@.skip(end as int))) =~= before.push(word@) + words(
            s@.skip(end as int),
        ));
        i = end;
    }
    found
}

/// Reads `s` as a signed 32-bit decimal number.
pub fn parse_i32(s: &[char]) -> (r: Option<i32>)
    ensures
        r == parsed_i32(s@),
{
    if s.len() > 0 && s[0] == '-' {
        assert(s@.subrange(1, s.len() as int) =~= s@.drop_first());
        match parse_digits(&s[1..s.len()], 0x8000_0000) {
            Some(v) => Some((0 - v as i64) as i32),
            None => None,
        }
    } else {
        let body = if s.len() > 0 && s[0] == '+' {
            assert(s@.subrange(1, s.len() as int) =~= s@.drop_first());
            &s[1..s.len()]
        } else {
            s
        };
        match parse_digits(body, 0x7fff_ffff) {
            Some(v) => Some(v as i32),
            None => None,
        }
    }
}

/// `String::push`: the text afterwards is the text before with `c` at its end.
pub assume_specification[ String::push ](s: &mut String, c: char)
    ensures
        final(s)@ == old(s)@.push(c),
;

/// The text that holds the characters of `s`.
pub fn to_text(s: &[char]) -> (r: String)
    ensures
        r@ == s@,
{
    let mut r = String::new();
    let mut i: usize = 0;
    while i < s.len()
        invariant
            i <= s.len(),
            r@ == s@.take(i as int),
        decreases s.len() - i,
    {
        r.push(s[i]);
        assert(s@.take(i as int).push(s@[i as int]) =~= s@.take(i as int + 1));
        i += 1;
    }
    assert(s@.take(i as int) =~= s@);
    r
}

/// Writes `n` in base ten at the end of `out`.
pub fn push_decimal(out: &mut String, n: u64)
    ensures
        final(out)@ == old(out)@ + decimal(n as nat),
    decreases n,
{
    if n >= 10 {
        push_decimal(out, n / 10);
    }
    let d: u8 = (n % 10) as u8;
    out.push((0x30 + d) as char);
    assert(out@ =~= old(out)@ + decimal(n as nat));
}

/// Writes `v` in base ten at the end of `out`.
pub fn push_signed_decimal(out: &mut String, v: i64)
    ensures
        final(out)@ == old(out)@ + signed_decimal(v as int),
{
    if v < 0 {
        out.push('-');
        push_decimal(out, (0 - v as i128) as u64);
        assert(out@ =~= old(out)@ + signed_decimal(v as int));
    } else {
        push_decimal(out, v as u64);
    }
}

/// Writes `s` at the end of `out`.
pub fn push_text(out: &mut String, s: &str)
    ensures
        final(out)@ == old(out)@ + s@,
{
    for c in it: s.chars()
        invariant
            out@ == old(out)@ + it.seq().take(it.index() as int),
            it.seq() == s@,
    {
        out.push(c);
        assert(s@.take(it.index() as int).push(c) =~= s@.take(it.index() as int + 1));
    }
    assert(s@.take(s@.len() as int) =~= s@);
}

/// The text that `bytes` encode, where they are UTF-8.
///
/// Calls `std::str::from_utf8`. The contract claims that it accepts exactly
/// the byte strings that are valid UTF-8, and that the text it hands back is
/// the one they encode.
#[verifier::external_body]
pub(crate) fn utf8_text(bytes: &[u8]) -> (r: Option<&str>)
    ensures
        r is Some <==> valid_utf8(bytes@),
        r matches Some(s) ==> s@ == decode_utf8(bytes@),
{
    std::str::from_utf8(bytes).ok()
}

/// The characters of `s`, one by one.
pub fn to_chars(s: &str) -> (v: Vec<char>)
    ensures
        v@ == s@,
{
    let mut v: Vec<char> = Vec::new();
    for c in it: s.chars()
        invariant
            v@ == it.seq().take(it.index() as int),
            it.seq() == s@,
    {
        v.push(c);
    }
    v
}

} // verus!
