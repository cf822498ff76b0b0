use vstd::prelude::*;

verus! {

/// The character is an ASCII decimal digit.
pub open spec fn is_digit(c: char) -> bool {
    '0' <= c && c <= '9'
}

/// Every character of `s` is an ASCII decimal digit.
pub open spec fn all_digits(s: Seq<char>) -> bool {
    forall|i: int| 0 <= i < s.len() ==> is_digit(#[trigger] s[i])
}

/// The value of one decimal digit.
pub open spec fn digit_value(c: char) -> nat {
    (c as int - '0' as int) as nat
}

/// The value of a string of decimal digits, most significant first.
pub open spec fn decimal_value(s: Seq<char>) -> nat
    decreases s.len(),
{
    if s.len() == 0 {
        0
    } else {
        decimal_value(s.drop_last()) * 10 + digit_value(s.last())
    }
}

/// What `u32::from_str` returns for `s`: an optional leading `+`, then one or
/// more decimal digits whose value fits in a `u32`.
pub open spec fn parse_u32_spec(s: Seq<char>) -> Option<u32> {
    let digits = if s.len() > 0 && s[0] == '+' { s.drop_first() } else { s };
    if digits.len() > 0 && all_digits(digits) && decimal_value(digits) <= u32::MAX {
        Some(decimal_value(digits) as u32)
    } else {
        None
    }
}

/// The character of a digit value below ten.
pub open spec fn digit_char(d: nat) -> char {
    (d + '0' as nat) as char
}

/// The shortest decimal text of `n`.
pub open spec fn decimal_text(n: nat) -> Seq<char>
    decreases n,
{
    if n < 10 {
        seq![digit_char(n)]
    } else {
        decimal_text(n / 10).push(digit_char(n % 10))
    }
}

/// Appends one character to a string by `String::push`, which std documents
/// as appending the given char to the end of the string; the contract claims
/// exactly that of the characters, and nothing about capacity.
#[verifier::external_body]
pub(crate) fn push_char(s: &mut String, c: char)
    ensures
        final(s)@ == old(s)@.push(c),
{
    s.push(c);
}

/// The characters of `s`, in order.
pub fn text_chars(s: &str) -> (chars: Vec<char>)
    ensures
        chars@ == s@,
{
    let n = s.unicode_len();
    let mut chars: Vec<char> = Vec::new();
    let mut i: usize = 0;
    while i < n
        invariant
            n == s@.len(),
            i <= n,
            chars@ == s@.subrange(0, i as int),
        decreases n - i,
    {
        let c = s.get_char(i);
        chars.push(c);
        i = i + 1;
        assert(chars@ =~= s@.subrange(0, i as int));
    }
    assert(chars@ =~= s@);
    chars
}

/// A string made of the given characters.
pub fn string_of(chars: &[char]) -> (s: String)
    ensures
        s@ == chars@,
{
    let mut s = String::new();
    let mut i: usize = 0;
    while i < chars.len()
        invariant
            i <= chars.len(),
            s@ == chars@.subrange(0, i as int),
        decreases chars.len() - i,
    {
        push_char(&mut s, chars[i]);
        i = i + 1;
        assert(s@ =~= chars@.subrange(0, i as int));
    }
    assert(s@ =~= chars@);
    s
}

/// Whether `c` is an ASCII decimal digit.
pub fn char_is_digit(c: char) -> (digit: bool)
    ensures
        digit == is_digit(c),
{
    '0' <= c && c <= '9'
}

proof fn lemma_decimal_value_prefix(s: Seq<char>, i: int)
    requires
        0 <= i < s.len(),
    ensures
        decimal_value(s.subrange(0, i + 1)) == decimal_value(s.subrange(0, i)) * 10 + digit_value(
            s[i],
        ),
{
    assert(s.subrange(0, i + 1).drop_last() =~= s.subrange(0, i));
}

proof fn lemma_decimal_value_monotone(s: Seq<char>, i: int)
    requires
        0 <= i <= s.len(),
        all_digits(s),
    ensures
        decimal_value(s.subrange(0, i)) <= decimal_value(s),
    decreases s.len() - i,
{
    if i < s.len() {
        lemma_decimal_value_prefix(s, i);
        lemma_decimal_value_monotone(s, i + 1);
    } else {
        assert(s.subrange(0, i) =~= s);
    }
}

/// The value of the decimal digits in `s[start..end]`, or `None` when that part is
/// empty, holds another character, or exceeds `u32::MAX`.
pub fn parse_digits_u32(s: &[char], start: usize, end: usize) -> (value: Option<u32>)
    requires
        start <= end <= s.len(),
    ensures
        value == (if end > start && all_digits(s@.subrange(start as int, end as int))
            && decimal_value(s@.subrange(start as int, end as int)) <= u32::MAX {
            Some(decimal_value(s@.subrange(start as int, end as int)) as u32)
        } else {
            None::<u32>
        }),
{
    let ghost digits = s@.subrange(start as int, end as int);
    if start == end {
        return None;
    }
    let mut i: usize = start;
    let mut acc: u64 = 0;
    while i < end
        invariant
            start <= i <= end <= s.len(),
            digits == s@.subrange(start as int, end as int),
            all_digits(s@.subrange(start as int, i as int)),
            acc == decimal_value(s@.subrange(start as int, i as int)),
            acc <= u32::MAX,
        decreases end - i,
    {
        let c = s[i];
        if !char_is_digit(c) {
            assert(digits[i - start] == c);
            return None;
        }
        proof {
            lemma_decimal_value_prefix(digits, i - start);
            assert(digits.subrange(0, i - start) =~= s@.subrange(start as int, i as int));
            assert(digits.subrange(0, i - start + 1) =~= s@.subrange(start as int, i + 1));
        }
        let d = (c as u64) - ('0' as u64);
        acc = acc * 10 + d;
        i = i + 1;
        assert(all_digits(s@.subrange(start as int, i as int)));
        if acc > 0xffff_ffffu64 {
            let ghost k = i - start;
            proof {
                let k = (i - start) as int;
                assert(digits.subrange(0, k) =~= s@.subrange(start as int, i as int));
                if all_digits(digits) {
                    lemma_decimal_value_monotone(digits, k);
                }
            }
            return None;
        }
    }
    assert(s@.subrange(start as int, i as int) =~= digits);
    Some(acc as u32)
}

/// Whether every character of `s[start..end]` is a decimal digit.
pub fn digits_only(s: &[char], start: usize, end: usize) -> (digits: bool)
    requires
        start <= end <= s.len(),
    ensures
        digits == all_digits(s@.subrange(start as int, end as int)),
{
    let mut i = start;
    while i < end
        invariant
            start <= i <= end <= s.len(),
            all_digits(s@.subrange(start as int, i as int)),
        decreases end - i,
    {
        if !char_is_digit(s[i]) {
            assert(s@.subrange(start as int, end as int)[i - start] == s[i as int]);
            return false;
        }
        i = i + 1;
        assert(all_digits(s@.subrange(start as int, i as int)));
    }
    true
}

/// The first index at or after `start` in `s[..end]` holding `c`, if any.
pub fn find_char(s: &[char], c: char, start: usize, end: usize) -> (found: Option<usize>)
    requires
        start <= end <= s.len(),
    ensures
        match found {
            Some(i) => start <= i < end && s@[i as int] == c && forall|j: int|
                start <= j < i ==> s@[j] != c,
            None => forall|j: int| start <= j < end ==> s@[j] != c,
        },
{
    let mut i = start;
    while i < end
        invariant
            start <= i <= end <= s.len(),
            forall|j: int| start <= j < i ==> s@[j] != c,
        decreases end - i,
    {
        if s[i] == c {
            return Some(i);
        }
        i = i + 1;
    }
    None
}

/// Parses `s[start..end]` as `u32::from_str` does: an optional `+`, then
/// decimal digits.
pub fn parse_u32_range(s: &[char], start: usize, end: usize) -> (value: Option<u32>)
    requires
        start <= end <= s.len(),
    ensures
        value == parse_u32_spec(s@.subrange(start as int, end as int)),
{
    let ghost t = s@.subrange(start as int, end as int);
    if start < end && s[start] == '+' {
        let r = parse_digits_u32(s, start + 1, end);
        assert(t.drop_first() =~= s@.subrange(start + 1, end as int));
        r
    } else {
        parse_digits_u32(s, start, end)
    }
}

/// Parses `s` as `u32::from_str` does: an optional `+`, then decimal digits.
pub fn parse_u32(s: &[char]) -> (value: Option<u32>)
    ensures
        value == parse_u32_spec(s@),
{
    let r = parse_u32_range(s, 0, s.len());
    assert(s@ =~= s@.subrange(0, s@.len() as int));
    r
}

/// Parses a string as `u32::from_str` does.
pub fn parse_u32_str(s: &str) -> (value: Option<u32>)
    ensures
        value == parse_u32_spec(s@),
{
    let chars = text_chars(s);
    parse_u32(chars.as_slice())
}

/// Decimal text is nonempty, made of digits, and reads back as the number.
pub proof fn lemma_decimal_text_roundtrip(n: nat)
    ensures
        decimal_text(n).len() > 0,
        all_digits(decimal_text(n)),
        decimal_value(decimal_text(n)) == n,
        decimal_text(n)[0] != '+',
    decreases n,
{
    assert(digit_value(digit_char(n % 10)) == n % 10);
    if n >= 10 {
        lemma_decimal_text_roundtrip(n / 10);
        let t = decimal_text(n);
        assert(n == (n / 10) * 10 + n % 10);
        assert(t.drop_last() =~= decimal_text(n / 10));
        assert(t[0] == decimal_text(n / 10)[0]);
        assert(t.last() == digit_char(n % 10));
        assert(decimal_value(t) == decimal_value(t.drop_last()) * 10 + digit_value(t.last()));
    } else {
        let t = decimal_text(n);
        assert(t.drop_last() =~= Seq::<char>::empty());
        assert(decimal_value(t) == decimal_value(t.drop_last()) * 10 + digit_value(t.last()));
    }
}

/// Appends the decimal text of `n`.
pub fn append_decimal(s: &mut String, n: u64)
    ensures
        final(s)@ == old(s)@ + decimal_text(n as nat),
    decreases n,
{
    if n >= 10 {
        append_decimal(s, n / 10);
    }
    let d = (n % 10) as u8;
    let c = (48u8 + d) as char;
    assert(c == digit_char((n % 10) as nat));
    push_char(s, c);
    proof {
        if n >= 10 {
            assert(decimal_text(n as nat) == decimal_text((n / 10) as nat).push(c));
        } else {
            assert(decimal_text(n as nat) =~= seq![c]);
        }
    }
    assert(s@ =~= old(s)@ + decimal_text(n as nat));
}

/// Whether two strings hold the same characters.
pub fn str_eq(a: &str, b: &str) -> (same: bool)
    ensures
        same == (a@ == b@),
{
    let x = text_chars(a);
    let y = text_chars(b);
    if x.len() != y.len() {
        return false;
    }
    let mut i: usize = 0;
    while i < x.len()
        invariant
            x@ == a@,
            y@ == b@,
            x.len() == y.len(),
            i <= x.len(),
            forall|j: int| 0 <= j < i ==> x@[j] == y@[j],
        decreases x.len() - i,
    {
        if x[i] != y[i] {
            return false;
        }
        i = i + 1;
    }
    assert(x@ =~= y@);
    true
}

/// The parts of `s` between separators, as `str::split(sep)` yields them: a
/// separator starts a new, empty part and any other character extends the
/// last part.
pub open spec fn split_on(s: Seq<char>, sep: char) -> Seq<Seq<char>>
    decreases s.len(),
{
    if s.len() == 0 {
        seq![Seq::<char>::empty()]
    } else {
        let parts = split_on(s.drop_last(), sep);
        if s.last() == sep {
            parts.push(Seq::<char>::empty())
        } else {
            parts.update(parts.len() - 1, parts.last().push(s.last()))
        }
    }
}

/// Splits `s` at every `sep`, as `str::split` does.
pub fn split_chars(s: &[char], sep: char) -> (parts: Vec<Vec<char>>)
    ensures
        parts@.map_values(|p: Vec<char>| p@) == split_on(s@, sep),
{
    let mut parts: Vec<Vec<char>> = Vec::new();
    let mut current: Vec<char> = Vec::new();
    let mut i: usize = 0;
    assert(s@.subrange(0, 0) =~= Seq::<char>::empty());
    while i < s.len()
        invariant
            i <= s.len(),
            split_on(s@.subrange(0, i as int), sep) == parts@.map_values(|p: Vec<char>| p@).push(
                current@,
            ),
        decreases s.len() - i,
    {
        let c = s[i];
        let ghost prefix = s@.subrange(0, i + 1);
        proof {
            assert(prefix.drop_last() =~= s@.subrange(0, i as int));
        }
        if c == sep {
            let ghost before = parts@;
            let done = current;
            current = Vec::new();
            parts.push(done);
            proof {
                assert(parts@.map_values(|p: Vec<char>| p@) =~= before.map_values(
                    |p: Vec<char>| p@,
                ).push(done@));
                assert(split_on(prefix, sep) =~= parts@.map_values(|p: Vec<char>| p@).push(
                    current@,
                ));
            }
        } else {
            current.push(c);
            proof {
                assert(split_on(prefix, sep) =~= parts@.map_values(|p: Vec<char>| p@).push(
                    current@,
                ));
            }
        }
        i = i + 1;
    }
    let ghost before = parts@;
    parts.push(current);
    proof {
        assert(s@.subrange(0, s@.len() as int) =~= s@);
        assert(parts@.map_values(|p: Vec<char>| p@) =~= before.map_values(|p: Vec<char>| p@).push(
            parts@.last()@,
        ));
    }
    parts
}

/// `s` starts with `prefix`.
pub open spec fn has_prefix(s: Seq<char>, prefix: Seq<char>) -> bool {
    prefix.len() <= s.len() && s.subrange(0, prefix.len() as int) == prefix
}

/// Whether `s` starts with `prefix`.
pub fn starts_with(s: &[char], prefix: &[char]) -> (yes: bool)
    ensures
        yes == has_prefix(s@, prefix@),
{
    if prefix.len() > s.len() {
        return false;
    }
    let mut i: usize = 0;
    while i < prefix.len()
        invariant
            i <= prefix.len() <= s.len(),
            forall|j: int| 0 <= j < i ==> s@[j] == prefix@[j],
        decreases prefix.len() - i,
    {
        if s[i] != prefix[i] {
            assert(s@.subrange(0, prefix.len() as int)[i as int] != prefix@[i as int]);
            return false;
        }
        i = i + 1;
    }
    assert(s@.subrange(0, prefix.len() as int) =~= prefix@);
    true
}

} // verus!
