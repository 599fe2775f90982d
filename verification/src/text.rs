//! Text as sequences of characters: the predicates, the splitting and the
//! number grammar that the line protocol is made of.

use vstd::prelude::*;

verus! {

/// `String::push` appends the given character to the end of the string.
pub assume_specification[ String::push ](s: &mut String, c: char)
    ensures
        final(s)@ == old(s)@.push(c),
;

/// What `str::to_lowercase` makes of a text.
pub uninterp spec fn lowercase_text(s: Seq<char>) -> Seq<char>;

/// `str::to_lowercase`: the text with every character in lower case.
#[verifier::external_body]
pub(crate) fn lowercase(s: &str) -> (r: String)
    ensures
        r@ == lowercase_text(s@),
{
    s.to_lowercase()
}

/// The characters of a string, in order.
pub fn chars_of(s: &str) -> (v: Vec<char>)
    ensures
        v@ == s@,
{
    let mut v: Vec<char> = Vec::new();
    for c in it: s.chars()
        invariant
            v@ == it.seq().take(it.index() as int),
    {
        v.push(c);
    }
    v
}

/// The string made of `cs[from..to]`.
pub fn text_of(cs: &[char], from: usize, to: usize) -> (s: String)
    requires
        from <= to <= cs.len(),
    ensures
        s@ == cs@.subrange(from as int, to as int),
{
    let mut s = String::new();
    let mut i: usize = from;
    while i < to
        invariant
            from <= i <= to,
            to <= cs.len(),
            s@ == cs@.subrange(from as int, i as int),
        decreases to - i,
    {
        s.push(cs[i]);
        assert(cs@.subrange(from as int, i + 1) =~= cs@.subrange(from as int, i as int).push(
            cs@[i as int],
        ));
        i = i + 1;
    }
    s
}

/// Appends the characters of `cs` to `out`.
pub fn push_chars(out: &mut String, cs: &[char])
    ensures
        final(out)@ == old(out)@ + cs@,
{
    let mut i: usize = 0;
    while i < cs.len()
        invariant
            i <= cs.len(),
            out@ == old(out)@ + cs@.take(i as int),
        decreases cs.len() - i,
    {
        out.push(cs[i]);
        assert(cs@.take(i + 1) =~= cs@.take(i as int).push(cs@[i as int]));
        assert(out@ =~= old(out)@ + cs@.take(i + 1));
        i = i + 1;
    }
    assert(cs@.take(cs@.len() as int) =~= cs@);
}

/// The number of bytes that a character takes in UTF-8.
pub open spec fn utf8_width(c: char) -> nat {
    let u = c as u32;
    if u <= 0x7F {
        1
    } else if u <= 0x7FF {
        2
    } else if u <= 0xFFFF {
        3
    } else {
        4
    }
}

/// The number of bytes that a text takes in UTF-8.
pub open spec fn utf8_len(s: Seq<char>) -> nat
    decreases s.len(),
{
    if s.len() == 0 {
        0
    } else {
        utf8_len(s.drop_last()) + utf8_width(s.last())
    }
}

/// Two texts one after the other take the bytes of both.
pub proof fn lemma_utf8_len_concat(a: Seq<char>, b: Seq<char>)
    ensures
        utf8_len(a + b) == utf8_len(a) + utf8_len(b),
    decreases b.len(),
{
    if b.len() == 0 {
        assert(a + b =~= a);
    } else {
        assert((a + b).drop_last() =~= a + b.drop_last());
        lemma_utf8_len_concat(a, b.drop_last());
    }
}

/// A beginning of a text takes no more bytes than the text.
pub proof fn lemma_utf8_len_take(s: Seq<char>, k: int)
    requires
        0 <= k <= s.len(),
    ensures
        utf8_len(s.take(k)) <= utf8_len(s),
{
    assert(s.take(k) + s.skip(k) =~= s);
    lemma_utf8_len_concat(s.take(k), s.skip(k));
}

/// The measure is the length of the text's UTF-8 encoding, which is what
/// `str::len` gives.
pub proof fn lemma_utf8_len_is_encoded_len(s: Seq<char>)
    ensures
        utf8_len(s) == vstd::utf8::encode_utf8(s).len(),
    decreases s.len(),
{
    if s.len() > 0 {
        let first = seq![s[0]];
        lemma_utf8_len_is_encoded_len(s.drop_first());
        assert(first + s.drop_first() =~= s);
        lemma_utf8_len_concat(first, s.drop_first());
        assert(first.drop_last() =~= Seq::<char>::empty());
        assert(utf8_len(first.drop_last()) == 0);
        assert(utf8_len(first) == utf8_width(s[0]));
        vstd::utf8::char_is_scalar(s[0]);
    }
}

/// The number of bytes that `c` takes in UTF-8.
pub fn char_utf8_width(c: char) -> (r: usize)
    ensures
        r == utf8_width(c),
        1 <= r <= 4,
{
    let u: u32 = c as u32;
    if u <= 0x7F {
        1
    } else if u <= 0x7FF {
        2
    } else if u <= 0xFFFF {
        3
    } else {
        4
    }
}

/// Whether `cs` takes more than `limit` bytes in UTF-8.
pub fn takes_more_than(cs: &[char], limit: usize) -> (r: bool)
    ensures
        r == (utf8_len(cs@) > limit),
{
    let mut total: usize = 0;
    let mut i: usize = 0;
    assert(cs@.take(0) =~= Seq::<char>::empty());
    while i < cs.len()
        invariant
            i <= cs.len(),
            total == utf8_len(cs@.take(i as int)),
            total <= limit,
        decreases cs.len() - i,
    {
        let width = char_utf8_width(cs[i]);
        assert(cs@.take(i + 1).drop_last() =~= cs@.take(i as int));
        if width > limit - total {
            proof {
                lemma_utf8_len_take(cs@, i + 1);
            }
            return true;
        }
        total = total + width;
        i = i + 1;
    }
    assert(cs@.take(cs@.len() as int) =~= cs@);
    false
}

/// `s` begins with `p`.
pub open spec fn starts_with(s: Seq<char>, p: Seq<char>) -> bool {
    p.len() <= s.len() && s.subrange(0, p.len() as int) == p
}

/// `p` stands in `s` at position `i`.
pub open spec fn occurs_at(s: Seq<char>, p: Seq<char>, i: int) -> bool {
    0 <= i && i + p.len() <= s.len() && s.subrange(i, i + p.len()) == p
}

/// `p` stands somewhere in `s`.
pub open spec fn contains(s: Seq<char>, p: Seq<char>) -> bool {
    exists|i: int| occurs_at(s, p, i)
}

/// Whether `p` stands in `cs[from..to]` at offset `at` of that range.
pub fn matches_at(cs: &[char], from: usize, to: usize, at: usize, p: &[char]) -> (r: bool)
    requires
        from <= to <= cs.len(),
        at <= to - from,
    ensures
        r == occurs_at(cs@.subrange(from as int, to as int), p@, at as int),
{
    let ghost s = cs@.subrange(from as int, to as int);
    if p.len() > to - from - at {
        return false;
    }
    let mut k: usize = 0;
    while k < p.len()
        invariant
            k <= p.len(),
            from <= to <= cs.len(),
            at + p.len() <= to - from,
            s == cs@.subrange(from as int, to as int),
            forall|j: int| 0 <= j < k ==> s[at + j] == p@[j],
        decreases p.len() - k,
    {
        if cs[from + at + k] != p[k] {
            assert(s.subrange(at as int, at + p@.len())[k as int] != p@[k as int]);
            return false;
        }
        k = k + 1;
    }
    assert(s.subrange(at as int, at + p@.len()) =~= p@);
    true
}

/// Whether `cs[from..to]` begins with `p`.
pub fn range_starts_with(cs: &[char], from: usize, to: usize, p: &[char]) -> (r: bool)
    requires
        from <= to <= cs.len(),
    ensures
        r == starts_with(cs@.subrange(from as int, to as int), p@),
{
    matches_at(cs, from, to, 0, p)
}

/// Whether `cs[from..to]` is exactly `p`.
pub fn range_equals(cs: &[char], from: usize, to: usize, p: &[char]) -> (r: bool)
    requires
        from <= to <= cs.len(),
    ensures
        r == (cs@.subrange(from as int, to as int) == p@),
{
    let ghost s = cs@.subrange(from as int, to as int);
    if p.len() != to - from {
        return false;
    }
    let r = matches_at(cs, from, to, 0, p);
    assert(s.subrange(0, p@.len() as int) =~= s);
    r
}

/// Whether `p` stands somewhere in `cs`.
pub fn slice_contains(cs: &[char], p: &[char]) -> (r: bool)
    ensures
        r == contains(cs@, p@),
{
    let ghost s = cs@;
    assert(cs@.subrange(0, cs@.len() as int) =~= s);
    let mut i: usize = 0;
    while i < cs.len()
        invariant
            i <= cs.len(),
            s == cs@,
            cs@.subrange(0, cs@.len() as int) == s,
            forall|j: int| 0 <= j < i ==> !occurs_at(s, p@, j),
        decreases cs.len() - i,
    {
        if matches_at(cs, 0, cs.len(), i, p) {
            return true;
        }
        i = i + 1;
    }
    matches_at(cs, 0, cs.len(), i, p)
}

/// The position of the first `c` in `s`, or the length of `s` if there is
/// none.
pub open spec fn first_index(s: Seq<char>, c: char) -> int
    decreases s.len(),
{
    if s.len() == 0 {
        0
    } else if s[0] == c {
        0
    } else {
        1 + first_index(s.skip(1), c)
    }
}

/// The position lies within the text or at its end, the character
/// there is `c`, and none before it is.
pub proof fn lemma_first_index(s: Seq<char>, c: char)
    ensures
        0 <= first_index(s, c) <= s.len(),
        first_index(s, c) < s.len() ==> s[first_index(s, c)] == c,
        forall|j: int| 0 <= j < first_index(s, c) ==> s[j] != c,
    decreases s.len(),
{
    if s.len() > 0 && s[0] != c {
        lemma_first_index(s.skip(1), c);
        assert forall|j: int| 0 <= j < first_index(s, c) implies s[j] != c by {
            if j > 0 {
                assert(s.skip(1)[j - 1] == s[j]);
            }
        }
    }
}

/// A position that holds `c` with none before it is the first; so is
/// the end, if `c` does not occur.
pub proof fn lemma_first_index_is(s: Seq<char>, c: char, k: int)
    requires
        0 <= k <= s.len(),
        forall|j: int| 0 <= j < k ==> s[j] != c,
        k < s.len() ==> s[k] == c,
    ensures
        first_index(s, c) == k,
{
    lemma_first_index(s, c);
}

/// The pieces of `s` between the occurrences of `sep`: one more piece than
/// there are separators, empty pieces included.
pub open spec fn split(s: Seq<char>, sep: char) -> Seq<Seq<char>>
    decreases s.len(),
{
    let i = first_index(s, sep);
    if 0 <= i < s.len() {
        seq![s.take(i)] + split(s.skip(i + 1), sep)
    } else {
        seq![s]
    }
}

/// The texts of `cs` that a list of ranges stands for.
pub open spec fn range_texts(cs: Seq<char>, ranges: Seq<(usize, usize)>) -> Seq<Seq<char>> {
    Seq::new(ranges.len(), |k: int| cs.subrange(ranges[k].0 as int, ranges[k].1 as int))
}

/// Every range lies within `from..to`.
pub open spec fn ranges_within(ranges: Seq<(usize, usize)>, from: int, to: int) -> bool {
    forall|k: int|
        0 <= k < ranges.len() ==> from <= (#[trigger] ranges[k]).0 <= ranges[k].1 <= to
}

/// Splits `cs[from..to]` at every `sep` and gives the pieces as ranges of
/// `cs`.
pub fn split_ranges(cs: &[char], from: usize, to: usize, sep: char) -> (ranges: Vec<
    (usize, usize),
>)
    requires
        from <= to <= cs.len(),
    ensures
        range_texts(cs@, ranges@) == split(cs@.subrange(from as int, to as int), sep),
        ranges_within(ranges@, from as int, to as int),
        ranges@.len() >= 1,
{
    let ghost whole = cs@.subrange(from as int, to as int);
    let mut ranges: Vec<(usize, usize)> = Vec::new();
    let mut start: usize = from;
    let mut i: usize = from;
    while i < to
        invariant
            from <= start <= i <= to,
            to <= cs.len(),
            ranges_within(ranges@, from as int, to as int),
            forall|j: int| start <= j < i ==> cs@[j] != sep,
            range_texts(cs@, ranges@) + split(cs@.subrange(start as int, to as int), sep) == split(
                whole,
                sep,
            ),
        decreases to - i,
    {
        if cs[i] == sep {
            let ghost rest = cs@.subrange(start as int, to as int);
            let ghost before = range_texts(cs@, ranges@);
            proof {
                lemma_first_index_is(rest, sep, i - start);
                assert(rest.take(i - start) =~= cs@.subrange(start as int, i as int));
                assert(rest.skip(i - start + 1) =~= cs@.subrange(i + 1, to as int));
            }
            ranges.push((start, i));
            assert(range_texts(cs@, ranges@) =~= before + seq![
                cs@.subrange(start as int, i as int),
            ]);
            assert(range_texts(cs@, ranges@) + split(cs@.subrange(i + 1, to as int), sep)
                =~= before + split(rest, sep));
            start = i + 1;
        }
        i = i + 1;
    }
    let ghost rest = cs@.subrange(start as int, to as int);
    let ghost before = range_texts(cs@, ranges@);
    proof {
        lemma_first_index_is(rest, sep, to - start);
    }
    ranges.push((start, to));
    assert(range_texts(cs@, ranges@) =~= before + seq![rest]);
    ranges
}

/// White space as Unicode defines it.
pub open spec fn is_whitespace(c: char) -> bool {
    let u = c as u32;
    ||| 0x09 <= u <= 0x0D
    ||| u == 0x20
    ||| u == 0x85
    ||| u == 0xA0
    ||| u == 0x1680
    ||| 0x2000 <= u <= 0x200A
    ||| u == 0x2028
    ||| u == 0x2029
    ||| u == 0x202F
    ||| u == 0x205F
    ||| u == 0x3000
}

/// Whether `c` is white space.
pub fn char_is_whitespace(c: char) -> (r: bool)
    ensures
        r == is_whitespace(c),
{
    let u: u32 = c as u32;
    (0x09 <= u && u <= 0x0D) || u == 0x20 || u == 0x85 || u == 0xA0 || u == 0x1680 || (0x2000 <= u
        && u <= 0x200A) || u == 0x2028 || u == 0x2029 || u == 0x202F || u == 0x205F || u == 0x3000
}

/// Nothing but white space.
pub open spec fn is_blank(s: Seq<char>) -> bool {
    forall|i: int| 0 <= i < s.len() ==> is_whitespace(#[trigger] s[i])
}

/// Whether `cs[from..to]` holds nothing but white space.
pub fn range_is_blank(cs: &[char], from: usize, to: usize) -> (r: bool)
    requires
        from <= to <= cs.len(),
    ensures
        r == is_blank(cs@.subrange(from as int, to as int)),
{
    let ghost s = cs@.subrange(from as int, to as int);
    let mut i: usize = from;
    while i < to
        invariant
            from <= i <= to,
            to <= cs.len(),
            s == cs@.subrange(from as int, to as int),
            forall|j: int| 0 <= j < i - from ==> is_whitespace(#[trigger] s[j]),
        decreases to - i,
    {
        if !char_is_whitespace(cs[i]) {
            assert(!is_whitespace(s[i - from]));
            return false;
        }
        i = i + 1;
    }
    true
}

/// `s` without its leading white space.
pub open spec fn trim_start(s: Seq<char>) -> Seq<char>
    decreases s.len(),
{
    if s.len() > 0 && is_whitespace(s[0]) {
        trim_start(s.skip(1))
    } else {
        s
    }
}

/// `s` without its trailing white space.
pub open spec fn trim_end(s: Seq<char>) -> Seq<char>
    decreases s.len(),
{
    if s.len() > 0 && is_whitespace(s.last()) {
        trim_end(s.drop_last())
    } else {
        s
    }
}

/// `s` without the white space at either end.
pub open spec fn trim(s: Seq<char>) -> Seq<char> {
    trim_end(trim_start(s))
}

/// The range of `cs[from..to]` that is left when the white space at either
/// end is taken away.
pub fn trim_range(cs: &[char], from: usize, to: usize) -> (r: (usize, usize))
    requires
        from <= to <= cs.len(),
    ensures
        from <= r.0 <= r.1 <= to,
        cs@.subrange(r.0 as int, r.1 as int) == trim(cs@.subrange(from as int, to as int)),
{
    let mut a: usize = from;
    while a < to && char_is_whitespace(cs[a])
        invariant
            from <= a <= to,
            to <= cs.len(),
            trim_start(cs@.subrange(a as int, to as int)) == trim_start(
                cs@.subrange(from as int, to as int),
            ),
        decreases to - a,
    {
        assert(cs@.subrange(a as int, to as int).skip(1) =~= cs@.subrange(a + 1, to as int));
        a = a + 1;
    }
    assert(trim_start(cs@.subrange(a as int, to as int)) == cs@.subrange(a as int, to as int));
    let mut b: usize = to;
    while b > a && char_is_whitespace(cs[b - 1])
        invariant
            a <= b <= to,
            to <= cs.len(),
            trim_end(cs@.subrange(a as int, b as int)) == trim_end(
                cs@.subrange(a as int, to as int),
            ),
        decreases b - a,
    {
        assert(cs@.subrange(a as int, b as int).drop_last() =~= cs@.subrange(a as int, b - 1));
        b = b - 1;
    }
    assert(trim_end(cs@.subrange(a as int, b as int)) == cs@.subrange(a as int, b as int));
    (a, b)
}

/// The value of `c` as a digit: decimal, or hexadecimal in either case.
pub open spec fn digit_of(c: char, hex: bool) -> Option<nat> {
    if '0' <= c && c <= '9' {
        Some((c as u32 - '0' as u32) as nat)
    } else if hex && 'a' <= c && c <= 'f' {
        Some((c as u32 - 'a' as u32 + 10) as nat)
    } else if hex && 'A' <= c && c <= 'F' {
        Some((c as u32 - 'A' as u32 + 10) as nat)
    } else {
        None
    }
}

/// Sixteen for hexadecimal digits, ten for decimal ones.
pub open spec fn radix_of(hex: bool) -> nat {
    if hex {
        16
    } else {
        10
    }
}

/// The number that a run of digits says, if every character is a digit.
pub open spec fn digits_value(s: Seq<char>, hex: bool) -> Option<nat>
    decreases s.len(),
{
    if s.len() == 0 {
        Some(0)
    } else {
        match (digits_value(s.drop_last(), hex), digit_of(s.last(), hex)) {
            (Some(v), Some(d)) => Some(v * radix_of(hex) + d),
            _ => None,
        }
    }
}

/// An unsigned number as the protocol writes it: an optional `+`, then at
/// least one digit and nothing else, the value no more than `max`.
pub open spec fn parse_unsigned(s: Seq<char>, hex: bool, max: nat) -> Option<nat> {
    let body = if s.len() > 0 && s[0] == '+' {
        s.skip(1)
    } else {
        s
    };
    if body.len() == 0 {
        None
    } else {
        match digits_value(body, hex) {
            Some(v) => if v <= max {
                Some(v)
            } else {
                None
            },
            None => None,
        }
    }
}

/// A run of digits says at least as much as any of its beginnings, and a
/// beginning of a run of digits is one.
pub proof fn lemma_digits_value_prefix(s: Seq<char>, hex: bool, k: int)
    requires
        0 <= k <= s.len(),
        digits_value(s, hex) is Some,
    ensures
        digits_value(s.take(k), hex) is Some,
        digits_value(s.take(k), hex)->0 <= digits_value(s, hex)->0,
    decreases s.len(),
{
    if k == s.len() {
        assert(s.take(k) =~= s);
    } else {
        lemma_digits_value_prefix(s.drop_last(), hex, k);
        assert(s.drop_last().take(k) =~= s.take(k));
        let v = digits_value(s.drop_last(), hex)->0;
        assert(v * radix_of(hex) >= v) by (nonlinear_arith)
            requires
                radix_of(hex) >= 1,
        ;
    }
}

/// The value of `c` as a digit, if it is one.
pub fn digit_value(c: char, hex: bool) -> (r: Option<u8>)
    ensures
        r is Some <==> digit_of(c, hex) is Some,
        r is Some ==> r->0 as nat == digit_of(c, hex)->0,
        r is Some ==> r->0 < radix_of(hex),
{
    if c >= '0' && c <= '9' {
        Some(((c as u32) - ('0' as u32)) as u8)
    } else if hex && c >= 'a' && c <= 'f' {
        Some(((c as u32) - ('a' as u32) + 10) as u8)
    } else if hex && c >= 'A' && c <= 'F' {
        Some(((c as u32) - ('A' as u32) + 10) as u8)
    } else {
        None
    }
}

/// Reads `cs[from..to]` as an unsigned number no greater than `max`.
pub fn parse_unsigned_range(cs: &[char], from: usize, to: usize, hex: bool, max: u64) -> (r:
    Option<u64>)
    requires
        from <= to <= cs.len(),
    ensures
        r is Some <==> parse_unsigned(cs@.subrange(from as int, to as int), hex, max as nat)
            is Some,
        r is Some ==> r->0 as nat == parse_unsigned(
            cs@.subrange(from as int, to as int),
            hex,
            max as nat,
        )->0,
{
    let ghost s = cs@.subrange(from as int, to as int);
    let mut start: usize = from;
    if from < to && cs[from] == '+' {
        start = from + 1;
        assert(s.skip(1) =~= cs@.subrange(start as int, to as int));
    }
    let ghost body = cs@.subrange(start as int, to as int);
    assert(body == if s.len() > 0 && s[0] == '+' {
        s.skip(1)
    } else {
        s
    });
    if start == to {
        return None;
    }
    let mut acc: u64 = 0;
    let mut i: usize = start;
    while i < to
        invariant
            start <= i <= to,
            to <= cs.len(),
            body == cs@.subrange(start as int, to as int),
            s == cs@.subrange(from as int, to as int),
            body.len() > 0,
            body == if s.len() > 0 && s[0] == '+' {
                s.skip(1)
            } else {
                s
            },
            digits_value(body.take(i - start), hex) == Some(acc as nat),
            acc <= max,
        decreases to - i,
    {
        let ghost next_prefix = body.take(i - start + 1);
        assert(next_prefix.drop_last() =~= body.take(i - start));
        assert(next_prefix.last() == cs@[i as int]);
        let d = match digit_value(cs[i], hex) {
            Some(d) => d,
            None => {
                proof {
                    assert(digits_value(next_prefix, hex) is None);
                    if digits_value(body, hex) is Some {
                        lemma_digits_value_prefix(body, hex, i - start + 1);
                    }
                    assert(digits_value(body, hex) is None);
                }
                return None;
            },
        };
        let wide: u128 = if hex {
            (acc as u128) * 16 + (d as u128)
        } else {
            (acc as u128) * 10 + (d as u128)
        };
        assert(digits_value(next_prefix, hex) == Some(wide as nat));
        if wide > max as u128 {
            proof {
                if digits_value(body, hex) is Some {
                    lemma_digits_value_prefix(body, hex, i - start + 1);
                    assert(digits_value(body, hex)->0 > max);
                }
            }
            return None;
        }
        acc = wide as u64;
        i = i + 1;
    }
    assert(body.take(to - start) =~= body);
    Some(acc)
}

/// The character for a digit below sixteen, letters in upper case.
pub open spec fn digit_char(d: nat) -> char {
    if d == 0 {
        '0'
    } else if d == 1 {
        '1'
    } else if d == 2 {
        '2'
    } else if d == 3 {
        '3'
    } else if d == 4 {
        '4'
    } else if d == 5 {
        '5'
    } else if d == 6 {
        '6'
    } else if d == 7 {
        '7'
    } else if d == 8 {
        '8'
    } else if d == 9 {
        '9'
    } else if d == 10 {
        'A'
    } else if d == 11 {
        'B'
    } else if d == 12 {
        'C'
    } else if d == 13 {
        'D'
    } else if d == 14 {
        'E'
    } else {
        'F'
    }
}

/// The digit `d` as a character, hexadecimal digits in upper case.
pub fn digit_to_char(d: u8) -> (c: char)
    requires
        d < 16,
    ensures
        c == digit_char(d as nat),
{
    if d == 0 {
        '0'
    } else if d == 1 {
        '1'
    } else if d == 2 {
        '2'
    } else if d == 3 {
        '3'
    } else if d == 4 {
        '4'
    } else if d == 5 {
        '5'
    } else if d == 6 {
        '6'
    } else if d == 7 {
        '7'
    } else if d == 8 {
        '8'
    } else if d == 9 {
        '9'
    } else if d == 10 {
        'A'
    } else if d == 11 {
        'B'
    } else if d == 12 {
        'C'
    } else if d == 13 {
        'D'
    } else if d == 14 {
        'E'
    } else {
        'F'
    }
}

/// `n` in decimal, without leading zeros.
pub open spec fn decimal(n: nat) -> Seq<char>
    decreases n,
{
    if n < 10 {
        seq![digit_char(n)]
    } else {
        decimal(n / 10).push(digit_char(n % 10))
    }
}

/// Appends `n` in decimal to `out`.
pub fn push_decimal(out: &mut String, n: u64)
    ensures
        final(out)@ == old(out)@ + decimal(n as nat),
    decreases n,
{
    if n >= 10 {
        push_decimal(out, n / 10);
    }
    out.push(digit_to_char((n % 10) as u8));
    assert(out@ =~= old(out)@ + decimal(n as nat));
}

/// The lowest `width` hexadecimal digits of `n`, in upper case, the most
/// significant first.
pub open spec fn hex_upper(n: nat, width: nat) -> Seq<char>
    decreases width,
{
    if width == 0 {
        Seq::empty()
    } else {
        hex_upper(n / 16, (width - 1) as nat).push(digit_char(n % 16))
    }
}

/// Appends the lowest `width` hexadecimal digits of `n` to `out`.
pub fn push_hex_upper(out: &mut String, n: u64, width: u8)
    ensures
        final(out)@ == old(out)@ + hex_upper(n as nat, width as nat),
    decreases width,
{
    if width > 0 {
        push_hex_upper(out, n / 16, width - 1);
        out.push(digit_to_char((n % 16) as u8));
        assert(out@ =~= old(out)@ + hex_upper(n as nat, width as nat));
    } else {
        assert(out@ =~= old(out)@ + hex_upper(n as nat, width as nat));
    }
}

/// A signed number as the protocol writes it: an optional `+` or `-`, then
/// at least one decimal digit and nothing else, the value within
/// `min..=max`.
pub open spec fn parse_signed(s: Seq<char>, min: int, max: int) -> Option<int> {
    let negative = s.len() > 0 && s[0] == '-';
    let body = if s.len() > 0 && (s[0] == '+' || s[0] == '-') {
        s.skip(1)
    } else {
        s
    };
    if body.len() == 0 {
        None
    } else {
        match digits_value(body, false) {
            Some(v) => {
                let value = if negative {
                    -(v as int)
                } else {
                    v as int
                };
                if min <= value <= max {
                    Some(value)
                } else {
                    None
                }
            },
            None => None,
        }
    }
}

/// Reads `cs[from..to]` as a signed number within `min..=max`.
pub fn parse_signed_range(cs: &[char], from: usize, to: usize, min: i64, max: i64) -> (r: Option<
    i64,
>)
    requires
        from <= to <= cs.len(),
        min <= 0 <= max,
        min > i64::MIN,
    ensures
        r is Some <==> parse_signed(cs@.subrange(from as int, to as int), min as int, max as int)
            is Some,
        r is Some ==> r->0 as int == parse_signed(
            cs@.subrange(from as int, to as int),
            min as int,
            max as int,
        )->0,
{
    let ghost s = cs@.subrange(from as int, to as int);
    if from < to && cs[from] == '-' {
        assert(s.skip(1) =~= cs@.subrange(from + 1, to as int));
        if from + 1 == to {
            return None;
        }
        if cs[from + 1] == '+' {
            assert(digit_of(s.skip(1)[0], false) is None);
            proof {
                lemma_digits_value_first(s.skip(1), false);
            }
            return None;
        }
        let limit: u64 = (-min) as u64;
        match parse_unsigned_range(cs, from + 1, to, false, limit) {
            Some(v) => Some(-(v as i64)),
            None => None,
        }
    } else {
        match parse_unsigned_range(cs, from, to, false, max as u64) {
            Some(v) => Some(v as i64),
            None => None,
        }
    }
}

/// A run of digits begins with a digit.
pub proof fn lemma_digits_value_first(s: Seq<char>, hex: bool)
    requires
        s.len() > 0,
        digit_of(s[0], hex) is None,
    ensures
        digits_value(s, hex) is None,
    decreases s.len(),
{
    if s.len() > 1 {
        lemma_digits_value_first(s.drop_last(), hex);
    } else {
        assert(s.last() == s[0]);
    }
}

/// `n` in decimal, with a `-` before it if it is negative.
pub open spec fn signed_decimal(n: int) -> Seq<char> {
    if n < 0 {
        seq!['-'] + decimal((-n) as nat)
    } else {
        decimal(n as nat)
    }
}

/// Appends `n` in decimal to `out`.
pub fn push_signed_decimal(out: &mut String, n: i64)
    requires
        n > i64::MIN,
    ensures
        final(out)@ == old(out)@ + signed_decimal(n as int),
{
    if n < 0 {
        out.push('-');
        push_decimal(out, (-n) as u64);
        assert(out@ =~= old(out)@ + signed_decimal(n as int));
    } else {
        push_decimal(out, n as u64);
    }
}

/// `true` or `false`, written out.
pub open spec fn parse_bool(s: Seq<char>) -> Option<bool> {
    if s == "true"@ {
        Some(true)
    } else if s == "false"@ {
        Some(false)
    } else {
        None
    }
}

/// Reads `cs[from..to]` as `true` or `false`.
pub fn parse_bool_range(cs: &[char], from: usize, to: usize) -> (r: Option<bool>)
    requires
        from <= to <= cs.len(),
    ensures
        r == parse_bool(cs@.subrange(from as int, to as int)),
{
    let yes = chars_of("true");
    let no = chars_of("false");
    if range_equals(cs, from, to, yes.as_slice()) {
        Some(true)
    } else if range_equals(cs, from, to, no.as_slice()) {
        Some(false)
    } else {
        None
    }
}

/// `true` or `false`.
pub open spec fn bool_text(b: bool) -> Seq<char> {
    if b {
        "true"@
    } else {
        "false"@
    }
}

/// `true` or `false`.
pub fn bool_label(b: bool) -> (r: &'static str)
    ensures
        r@ == bool_text(b),
{
    if b {
        "true"
    } else {
        "false"
    }
}

/// Where the first `c` of `cs[from..to]` stands, or `to` if there is none.
pub fn find_char(cs: &[char], from: usize, to: usize, c: char) -> (r: usize)
    requires
        from <= to <= cs.len(),
    ensures
        from <= r <= to,
        r - from == first_index(cs@.subrange(from as int, to as int), c),
{
    let ghost s = cs@.subrange(from as int, to as int);
    let mut i: usize = from;
    while i < to && cs[i] != c
        invariant
            from <= i <= to,
            to <= cs.len(),
            s == cs@.subrange(from as int, to as int),
            forall|j: int| 0 <= j < i - from ==> s[j] != c,
        decreases to - i,
    {
        i = i + 1;
    }
    proof {
        lemma_first_index_is(s, c, i - from);
    }
    i
}

/// The texts of `lines`, joined by `sep`.
pub open spec fn join(lines: Seq<Seq<char>>, sep: Seq<char>) -> Seq<char>
    decreases lines.len(),
{
    if lines.len() == 0 {
        Seq::empty()
    } else if lines.len() == 1 {
        lines[0]
    } else {
        join(lines.drop_last(), sep) + sep + lines.last()
    }
}

/// The character for a digit below sixteen, letters in lower case.
pub open spec fn lower_digit_char(d: nat) -> char {
    if d == 10 {
        'a'
    } else if d == 11 {
        'b'
    } else if d == 12 {
        'c'
    } else if d == 13 {
        'd'
    } else if d == 14 {
        'e'
    } else if d == 15 {
        'f'
    } else {
        digit_char(d)
    }
}

/// The bytes in hexadecimal, two lower-case digits for each.
pub open spec fn hex_lower(bytes: Seq<u8>) -> Seq<char>
    decreases bytes.len(),
{
    if bytes.len() == 0 {
        Seq::empty()
    } else {
        hex_lower(bytes.drop_last()).push(lower_digit_char((bytes.last() / 16) as nat)).push(
            lower_digit_char((bytes.last() % 16) as nat),
        )
    }
}

/// `hex::encode`: the bytes in hexadecimal, two lower-case digits for each.
#[verifier::external_body]
pub(crate) fn hex_encode(bytes: &[u8]) -> (r: String)
    ensures
        r@ == hex_lower(bytes@),
{
    hex::encode(bytes)
}

} // verus!
