//! Text helpers shared by the rest of the crate: decimal numerals, joining of
//! fields, and the width of a character in UTF-8.

use vstd::prelude::*;

verus! {

/// The numeral for a digit value below ten.
pub open spec fn digit_char(d: int) -> char {
    if d == 0 {
        '0'
    } else if d == 1 {
        '1'
    } else if d == 2 {
        '2'
    } else if d == 3 {
        '3'
    } else if d == 4 {
        '4'
    } else if d == 5 {
        '5'
    } else if d == 6 {
        '6'
    } else if d == 7 {
        '7'
    } else if d == 8 {
        '8'
    } else {
        '9'
    }
}

/// The decimal numeral of a natural number, without leading zeros.
pub open spec fn decimal_nat(n: nat) -> Seq<char>
    decreases n,
{
    if n < 10 {
        seq![digit_char(n as int)]
    } else {
        decimal_nat(n / 10).push(digit_char((n % 10) as int))
    }
}

/// The decimal numeral of an integer; a negative one starts with `-`.
pub open spec fn decimal(i: int) -> Seq<char> {
    if i < 0 {
        seq!['-'] + decimal_nat((-i) as nat)
    } else {
        decimal_nat(i as nat)
    }
}

/// The fields joined into one text, with `sep` between neighbours.
pub open spec fn join_fields(fields: Seq<Seq<char>>, sep: char) -> Seq<char>
    decreases fields.len(),
{
    if fields.len() == 0 {
        Seq::empty()
    } else if fields.len() == 1 {
        fields[0]
    } else {
        join_fields(fields.drop_last(), sep).push(sep) + fields.last()
    }
}

/// The pieces of a text between the occurrences of `sep`; a text without
/// `sep` is one piece.
pub open spec fn split_fields(s: Seq<char>, sep: char) -> Seq<Seq<char>>
    decreases s.len(),
{
    if s.len() == 0 {
        seq![Seq::empty()]
    } else if s.last() == sep {
        split_fields(s.drop_last(), sep).push(Seq::empty())
    } else {
        let before = split_fields(s.drop_last(), sep);
        before.drop_last().push(before.last().push(s.last()))
    }
}

/// The fields of a text that are separated by `sep`; the empty text has
/// none.
pub open spec fn fields_of(s: Seq<char>, sep: char) -> Seq<Seq<char>> {
    if s.len() == 0 {
        Seq::empty()
    } else {
        split_fields(s, sep)
    }
}

/// Whether a text can stand as a field between separators `sep`: it is not
/// empty and holds no `sep`.
pub open spec fn is_field(s: Seq<char>, sep: char) -> bool {
    s.len() > 0 && !s.contains(sep)
}

/// Appending a text without `sep` lengthens the last piece.
pub proof fn lemma_split_append(a: Seq<char>, b: Seq<char>, sep: char)
    requires
        !b.contains(sep),
    ensures
        split_fields(a, sep).len() >= 1,
        split_fields(a + b, sep) == split_fields(a, sep).drop_last().push(
            split_fields(a, sep).last() + b,
        ),
    decreases b.len(),
{
    lemma_split_nonempty(a, sep);
    if b.len() == 0 {
        assert(a + b =~= a);
        assert(split_fields(a, sep).last() + b =~= split_fields(a, sep).last());
        assert(split_fields(a, sep).drop_last().push(split_fields(a, sep).last())
            =~= split_fields(a, sep));
    } else {
        let shorter = b.drop_last();
        assert(!shorter.contains(sep)) by {
            if shorter.contains(sep) {
                let k = choose|k: int| 0 <= k < shorter.len() && shorter[k] == sep;
                assert(b[k] == sep);
            }
        }
        assert(b.last() != sep) by {
            if b.last() == sep {
                assert(b[b.len() - 1] == sep);
            }
        }
        lemma_split_append(a, shorter, sep);
        assert((a + b).drop_last() =~= a + shorter);
        assert((a + b).last() == b.last());
        let before = split_fields(a + shorter, sep);
        assert(before.drop_last() =~= split_fields(a, sep).drop_last());
        assert(before.last().push(b.last()) =~= split_fields(a, sep).last() + b);
    }
}

/// A text always splits into at least one piece.
pub proof fn lemma_split_nonempty(s: Seq<char>, sep: char)
    ensures
        split_fields(s, sep).len() >= 1,
    decreases s.len(),
{
    if s.len() > 0 {
        lemma_split_nonempty(s.drop_last(), sep);
    }
}

/// Joining fields and taking the result apart again gives the fields back.
pub proof fn lemma_fields_of_join(fields: Seq<Seq<char>>, sep: char)
    requires
        forall|i: int| 0 <= i < fields.len() ==> is_field(#[trigger] fields[i], sep),
    ensures
        fields_of(join_fields(fields, sep), sep) == fields,
        fields.len() > 0 ==> join_fields(fields, sep).len() > 0,
    decreases fields.len(),
{
    if fields.len() == 0 {
    } else if fields.len() == 1 {
        let only = fields[0];
        assert(is_field(only, sep));
        lemma_split_append(Seq::empty(), only, sep);
        assert(Seq::<char>::empty() + only =~= only);
        assert(split_fields(Seq::empty(), sep).drop_last().push(
            split_fields(Seq::empty(), sep).last() + only,
        ) =~= fields);
    } else {
        let init = fields.drop_last();
        let last = fields.last();
        assert(is_field(last, sep));
        assert forall|i: int| 0 <= i < init.len() implies is_field(#[trigger] init[i], sep) by {
            assert(init[i] == fields[i]);
        }
        lemma_fields_of_join(init, sep);
        let head = join_fields(init, sep);
        let cut = head.push(sep);
        assert(cut.drop_last() =~= head);
        assert(split_fields(cut, sep) == split_fields(head, sep).push(Seq::empty()));
        lemma_split_append(cut, last, sep);
        assert(split_fields(cut, sep).drop_last() =~= init);
        assert(Seq::<char>::empty() + last =~= last);
        assert(init.push(last) =~= fields);
    }
}

/// Whether a character is a decimal digit.
pub open spec fn is_digit(c: char) -> bool {
    '0' <= c <= '9'
}

/// A decimal numeral is not empty and holds only digits after its sign, so
/// it holds no blank.
pub proof fn lemma_decimal_is_field(i: int)
    ensures
        is_field(decimal(i), ' '),
{
    if i < 0 {
        lemma_decimal_nat_digits((-i) as nat);
        let digits = decimal_nat((-i) as nat);
        let d = decimal(i);
        assert forall|k: int| 0 <= k < d.len() implies d[k] != ' ' by {
            if k > 0 {
                assert(d[k] == digits[k - 1]);
            }
        }
    } else {
        lemma_decimal_nat_digits(i as nat);
    }
}

/// The numeral of a natural number is not empty and holds only digits.
pub proof fn lemma_decimal_nat_digits(n: nat)
    ensures
        decimal_nat(n).len() > 0,
        forall|k: int| 0 <= k < decimal_nat(n).len() ==> is_digit(#[trigger] decimal_nat(n)[k]),
    decreases n,
{
    if n >= 10 {
        lemma_decimal_nat_digits(n / 10);
    }
}

/// The texts that the strings hold.
pub open spec fn texts(strings: Seq<String>) -> Seq<Seq<char>> {
    strings.map_values(|s: String| s@)
}

/// `String::push` appends one character at the end of the string.
pub assume_specification[ String::push ](s: &mut String, ch: char)
    ensures
        final(s)@ == old(s)@.push(ch),
;

fn digit_of(d: u64) -> (c: char)
    requires
        d < 10,
    ensures
        c == digit_char(d as int),
{
    if d == 0 {
        '0'
    } else if d == 1 {
        '1'
    } else if d == 2 {
        '2'
    } else if d == 3 {
        '3'
    } else if d == 4 {
        '4'
    } else if d == 5 {
        '5'
    } else if d == 6 {
        '6'
    } else if d == 7 {
        '7'
    } else if d == 8 {
        '8'
    } else {
        '9'
    }
}

/// Appends the decimal numeral of `n` to `out`.
pub fn push_decimal(out: &mut String, n: u64)
    ensures
        final(out)@ == old(out)@ + decimal_nat(n as nat),
    decreases n,
{
    if n >= 10 {
        push_decimal(out, n / 10);
    }
    out.push(digit_of(n % 10));
}

/// The decimal numeral of a signed status or descriptor number.
pub fn decimal_string(i: i32) -> (s: String)
    ensures
        s@ == decimal(i as int),
{
    let mut s = String::new();
    if i < 0 {
        s.push('-');
        let magnitude: u64 = (-(i as i64)) as u64;
        push_decimal(&mut s, magnitude);
    } else {
        push_decimal(&mut s, i as u64);
    }
    s
}

/// The characters of a string, in order.
pub fn chars_of(s: &str) -> (v: Vec<char>)
    ensures
        v@ == s@,
{
    let mut v: Vec<char> = Vec::new();
    for c in it: s.chars()
        invariant
            v@ == it.seq().take(it.index() as int),
            it.seq() == s@,
    {
        v.push(c);
    }
    v
}

/// The value of a digit character.
pub open spec fn digit_value(c: char) -> nat {
    (c as nat - '0' as nat) as nat
}

/// The number that a run of digits denotes; leading zeros count for nothing.
pub open spec fn digits_value(s: Seq<char>) -> nat
    decreases s.len(),
{
    if s.len() == 0 {
        0
    } else {
        digits_value(s.drop_last()) * 10 + digit_value(s.last())
    }
}

/// Whether every character of the text is a digit.
pub open spec fn all_digits(s: Seq<char>) -> bool {
    forall|i: int| 0 <= i < s.len() ==> is_digit(#[trigger] s[i])
}

/// The number that a text denotes as an index: an optional `+` followed by
/// one digit or more. Any other text denotes none.
pub open spec fn index_value(s: Seq<char>) -> Option<nat> {
    let body = if s.len() > 0 && s[0] == '+' {
        s.skip(1)
    } else {
        s
    };
    if body.len() > 0 && all_digits(body) {
        Some(digits_value(body))
    } else {
        None
    }
}

/// A run of digits that goes on denotes at least as much as its start.
pub proof fn lemma_digits_value_grows(s: Seq<char>, k: int)
    requires
        0 <= k <= s.len(),
    ensures
        digits_value(s.take(k)) <= digits_value(s),
    decreases s.len() - k,
{
    if k == s.len() {
        assert(s.take(k) =~= s);
    } else {
        lemma_digits_value_grows(s, k + 1);
        assert(s.take(k + 1).drop_last() =~= s.take(k));
    }
}

/// Reads the characters from `from` on as a run of digits. The result is
/// the number that they denote where there is at least one character, all
/// are digits and the number is no larger than `limit`; else there is none.
pub fn parse_digits(chars: &Vec<char>, from: usize, limit: u64) -> (r: Option<u64>)
    requires
        from <= chars@.len(),
    ensures
        match r {
            Some(value) => {
                &&& chars@.len() > from
                &&& all_digits(chars@.skip(from as int))
                &&& value == digits_value(chars@.skip(from as int))
                &&& value <= limit
            },
            None => chars@.len() == from || !all_digits(chars@.skip(from as int)) || digits_value(
                chars@.skip(from as int),
            ) > limit,
        },
{
    let ghost body = chars@.skip(from as int);
    if chars.len() == from {
        return None;
    }
    let mut i: usize = from;
    while i < chars.len()
        invariant
            from <= i <= chars@.len(),
            body == chars@.skip(from as int),
            forall|k: int| 0 <= k < i - from ==> is_digit(#[trigger] body[k]),
        decreases chars@.len() - i,
    {
        let c = chars[i];
        if !('0' <= c && c <= '9') {
            proof {
                assert(!is_digit(body[i - from]));
            }
            return None;
        }
        i += 1;
    }
    let mut value: u64 = 0;
    let mut i: usize = from;
    while i < chars.len()
        invariant
            from <= i <= chars@.len(),
            body == chars@.skip(from as int),
            all_digits(body),
            value == digits_value(body.take(i - from)),
            value <= limit,
        decreases chars@.len() - i,
    {
        let c = chars[i];
        proof {
            assert(is_digit(body[i - from]));
            assert(body[i - from] == c);
        }
        let d = (c as u32 - '0' as u32) as u64;
        proof {
            assert(d == digit_value(c));
            assert(body.take(i - from + 1).drop_last() =~= body.take(i - from));
            assert(body.take(i - from + 1).last() == c);
            assert(digits_value(body.take(i - from + 1)) == value * 10 + d);
            lemma_digits_value_grows(body, i - from + 1);
        }
        let scaled = match value.checked_mul(10) {
            Some(v) => v,
            None => {
                return None;
            },
        };
        value = match scaled.checked_add(d) {
            Some(v) => v,
            None => {
                return None;
            },
        };
        if value > limit {
            return None;
        }
        i += 1;
    }
    proof {
        assert(body.take(i - from) =~= body);
    }
    Some(value)
}

/// Reads a text as an index. The result is the number that the text denotes
/// where it fits a `usize`, and none where the text denotes no number or one
/// that does not fit.
pub fn parse_index(s: &str) -> (r: Option<usize>)
    ensures
        match r {
            Some(n) => index_value(s@) == Some(n as nat),
            None => match index_value(s@) {
                Some(value) => value > usize::MAX,
                None => true,
            },
        },
{
    let chars = chars_of(s);
    let start: usize = if chars.len() > 0 && chars[0] == '+' {
        1
    } else {
        0
    };
    proof {
        if start == 0 {
            assert(chars@.skip(0) =~= s@);
        }
    }
    match parse_digits(&chars, start, usize::MAX as u64) {
        Some(value) => Some(value as usize),
        None => None,
    }
}

/// The strings of `items` from the one at `from` on, joined with `sep`
/// between neighbours.
pub fn join_from(items: &Vec<String>, from: usize, sep: char) -> (joined: String)
    requires
        from <= items@.len(),
    ensures
        joined@ == join_fields(texts(items@.skip(from as int)), sep),
{
    let mut joined = String::new();
    let ghost rest = texts(items@.skip(from as int));
    let mut i: usize = from;
    while i < items.len()
        invariant
            from <= i <= items@.len(),
            rest == texts(items@.skip(from as int)),
            joined@ == join_fields(rest.take(i - from), sep),
        decreases items@.len() - i,
    {
        proof {
            assert(rest.take(i - from + 1).drop_last() =~= rest.take(i - from));
            assert(rest[i - from] == items@[i as int]@);
        }
        if i > from {
            joined.push(sep);
        }
        joined.append(items[i].as_str());
        i += 1;
    }
    proof {
        assert(rest.take(i - from) =~= rest);
    }
    joined
}

/// Whether the text is the single character `c`.
pub fn is_char(s: &str, c: char) -> (b: bool)
    ensures
        b == (s@ == seq![c]),
{
    if s.unicode_len() == 1 {
        let first = s.get_char(0);
        proof {
            if first == c {
                assert(s@ =~= seq![c]);
            }
        }
        first == c
    } else {
        false
    }
}

/// The number of bytes that a character takes in UTF-8.
pub open spec fn utf8_width(c: char) -> nat {
    if (c as u32) < 0x80 {
        1
    } else if (c as u32) < 0x800 {
        2
    } else if (c as u32) < 0x10000 {
        3
    } else {
        4
    }
}

/// Computes [`utf8_width`].
pub fn char_width(c: char) -> (w: usize)
    ensures
        w == utf8_width(c),
{
    let code = c as u32;
    if code < 0x80 {
        1
    } else if code < 0x800 {
        2
    } else if code < 0x10000 {
        3
    } else {
        4
    }
}

/// The number of bytes that a text takes in UTF-8.
pub open spec fn byte_len(s: Seq<char>) -> nat
    decreases s.len(),
{
    if s.len() == 0 {
        0
    } else {
        byte_len(s.drop_last()) + utf8_width(s.last())
    }
}

/// The bytes of a text are those of its parts.
pub proof fn lemma_byte_len_concat(a: Seq<char>, b: Seq<char>)
    ensures
        byte_len(a + b) == byte_len(a) + byte_len(b),
    decreases b.len(),
{
    if b.len() == 0 {
        assert(a + b =~= a);
    } else {
        lemma_byte_len_concat(a, b.drop_last());
        assert((a + b).drop_last() =~= a + b.drop_last());
    }
}

/// A text cut in two keeps its bytes, and every character takes at least
/// one byte.
pub proof fn lemma_byte_len_split(s: Seq<char>, k: int)
    requires
        0 <= k <= s.len(),
    ensures
        byte_len(s.take(k)) + byte_len(s.skip(k)) == byte_len(s),
        byte_len(s.take(k)) >= k,
{
    lemma_byte_len_concat(s.take(k), s.skip(k));
    assert(s.take(k) + s.skip(k) =~= s);
    lemma_byte_len_at_least(s.take(k));
}

/// A text takes at least one byte for each character.
pub proof fn lemma_byte_len_at_least(s: Seq<char>)
    ensures
        byte_len(s) >= s.len(),
    decreases s.len(),
{
    if s.len() > 0 {
        lemma_byte_len_at_least(s.drop_last());
    }
}

/// The string that holds the characters from `from` up to `to`.
pub fn string_of(chars: &Vec<char>, from: usize, to: usize) -> (s: String)
    requires
        from <= to <= chars@.len(),
    ensures
        s@ == chars@.subrange(from as int, to as int),
{
    let mut s = String::new();
    let mut i: usize = from;
    while i < to
        invariant
            from <= i <= to <= chars@.len(),
            s@ == chars@.subrange(from as int, i as int),
        decreases to - i,
    {
        s.push(chars[i]);
        proof {
            assert(s@ =~= chars@.subrange(from as int, i + 1));
        }
        i += 1;
    }
    s
}

/// Whether a character is white space: one of the characters that Unicode
/// gives the property `White_Space`.
pub open spec fn is_whitespace(c: char) -> bool {
    let code = c as u32;
    (0x09 <= code <= 0x0d) || code == 0x20 || code == 0x85 || code == 0xa0 || code == 0x1680 || (
    0x2000 <= code <= 0x200a) || code == 0x2028 || code == 0x2029 || code == 0x202f || code
        == 0x205f || code == 0x3000
}

/// Computes [`is_whitespace`].
pub fn whitespace(c: char) -> (b: bool)
    ensures
        b == is_whitespace(c),
{
    let code = c as u32;
    (0x09 <= code && code <= 0x0d) || code == 0x20 || code == 0x85 || code == 0xa0 || code
        == 0x1680 || (0x2000 <= code && code <= 0x200a) || code == 0x2028 || code == 0x2029
        || code == 0x202f || code == 0x205f || code == 0x3000
}

/// The number of characters that are left of a text when the white space at
/// its end is taken away.
pub open spec fn trimmed_len(s: Seq<char>) -> int
    decreases s.len(),
{
    if s.len() == 0 {
        0
    } else if is_whitespace(s.last()) {
        trimmed_len(s.drop_last())
    } else {
        s.len() as int
    }
}

/// The text without the white space at its end.
pub open spec fn trim_end(s: Seq<char>) -> Seq<char> {
    s.take(trimmed_len(s))
}

/// What is left of a text without the white space at its end is a part of
/// it.
pub proof fn lemma_trimmed_len(s: Seq<char>)
    ensures
        0 <= trimmed_len(s) <= s.len(),
    decreases s.len(),
{
    if s.len() > 0 && is_whitespace(s.last()) {
        lemma_trimmed_len(s.drop_last());
    }
}

/// Computes [`trimmed_len`].
pub fn trimmed_end(chars: &Vec<char>) -> (n: usize)
    ensures
        n == trimmed_len(chars@),
        n <= chars@.len(),
{
    let mut n = chars.len();
    proof {
        assert(chars@.take(n as int) =~= chars@);
    }
    while n > 0 && whitespace(chars[n - 1])
        invariant
            n <= chars@.len(),
            trimmed_len(chars@) == trimmed_len(chars@.take(n as int)),
        decreases n,
    {
        proof {
            assert(chars@.take(n as int).drop_last() =~= chars@.take(n - 1));
        }
        n -= 1;
    }
    proof {
        lemma_trimmed_len(chars@);
    }
    n
}

/// The pieces of the first `n` characters between the occurrences of `sep`,
/// as [`split_fields`] defines them.
pub fn split_on(chars: &Vec<char>, n: usize, sep: char) -> (pieces: Vec<String>)
    requires
        n <= chars@.len(),
    ensures
        texts(pieces@) == split_fields(chars@.take(n as int), sep),
{
    let mut pieces: Vec<String> = Vec::new();
    let mut current = String::new();
    let mut i: usize = 0;
    proof {
        assert(texts(pieces@).push(current@) =~= split_fields(chars@.take(0), sep));
    }
    while i < n
        invariant
            i <= n <= chars@.len(),
            texts(pieces@).push(current@) == split_fields(chars@.take(i as int), sep),
        decreases n - i,
    {
        let c = chars[i];
        proof {
            assert(chars@.take(i + 1).drop_last() =~= chars@.take(i as int));
            assert(chars@.take(i + 1).last() == c);
            assert(texts(pieces@).push(current@).drop_last() =~= texts(pieces@));
        }
        if c == sep {
            proof {
                assert(texts(pieces@.push(current)) =~= texts(pieces@).push(current@));
            }
            pieces.push(current);
            current = String::new();
        } else {
            current.push(c);
        }
        i += 1;
    }
    proof {
        assert(texts(pieces@.push(current)) =~= texts(pieces@).push(current@));
    }
    pieces.push(current);
    pieces
}

/// Whether two texts are the same.
pub fn same_text(a: &str, b: &str) -> (same: bool)
    ensures
        same == (a@ == b@),
{
    let left = chars_of(a);
    let right = chars_of(b);
    if left.len() != right.len() {
        return false;
    }
    let mut i: usize = 0;
    while i < left.len()
        invariant
            i <= left@.len(),
            left@.len() == right@.len(),
            left@ == a@,
            right@ == b@,
            forall|k: int| 0 <= k < i ==> left@[k] == right@[k],
        decreases left@.len() - i,
    {
        if left[i] != right[i] {
            return false;
        }
        i += 1;
    }
    proof {
        assert(a@ =~= b@);
    }
    true
}

/// The number that a text denotes as an `i32`: an optional sign followed by
/// one digit or more, with a value that an `i32` holds.
pub open spec fn i32_value(s: Seq<char>) -> Option<int> {
    let negative = s.len() > 0 && s[0] == '-';
    let body = if s.len() > 0 && (s[0] == '-' || s[0] == '+') {
        s.skip(1)
    } else {
        s
    };
    let value = if negative {
        -(digits_value(body) as int)
    } else {
        digits_value(body) as int
    };
    if body.len() > 0 && all_digits(body) && i32::MIN <= value <= i32::MAX {
        Some(value)
    } else {
        None
    }
}

/// Reads the characters from `from` on as an `i32`, as [`i32_value`] says.
pub fn parse_i32(chars: &Vec<char>, from: usize) -> (r: Option<i32>)
    requires
        from <= chars@.len(),
    ensures
        match r {
            Some(number) => i32_value(chars@.skip(from as int)) == Some(number as int),
            None => i32_value(chars@.skip(from as int)) is None,
        },
{
    let ghost s = chars@.skip(from as int);
    let negative = chars.len() > from && chars[from] == '-';
    let signed = chars.len() > from && (chars[from] == '-' || chars[from] == '+');
    let start: usize = if signed {
        from + 1
    } else {
        from
    };
    proof {
        if signed {
            assert(s.skip(1) =~= chars@.skip(start as int));
        }
    }
    if negative {
        match parse_digits(chars, start, 0x8000_0000) {
            Some(value) => Some((-(value as i64)) as i32),
            None => None,
        }
    } else {
        match parse_digits(chars, start, 0x7fff_ffff) {
            Some(value) => Some(value as i32),
            None => None,
        }
    }
}

/// Whether `c` is one of `set`.
pub fn contains_char(set: &Vec<char>, c: char) -> (found: bool)
    ensures
        found == set@.contains(c),
{
    let mut i: usize = 0;
    while i < set.len()
        invariant
            i <= set@.len(),
            forall|k: int| 0 <= k < i ==> set@[k] != c,
        decreases set@.len() - i,
    {
        if set[i] == c {
            return true;
        }
        i += 1;
    }
    false
}

} // verus!
