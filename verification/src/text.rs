//! Plain text: characters, white space, decimal numbers, and the order of strings.
//!
//! A string is seen as the sequence of its characters throughout.

use vstd::prelude::*;

verus! {

/// `String::push`: the character is appended at the end of the string.
pub assume_specification[ String::push ](s: &mut String, c: char)
    ensures
        final(s)@ == old(s)@.push(c),
;

/// The views of a sequence of strings.
pub open spec fn texts(s: Seq<String>) -> Seq<Seq<char>> {
    s.map_values(|t: String| t@)
}

/// The view of an optional string.
pub open spec fn opt_text(s: Option<String>) -> Option<Seq<char>> {
    match s {
        Some(t) => Some(t@),
        None => None,
    }
}

/// A copy of a list of strings.
pub fn copy_texts(list: &Vec<String>) -> (r: Vec<String>)
    ensures
        texts(r@) == texts(list@),
{
    let mut r: Vec<String> = Vec::new();
    for i in 0..list.len()
        invariant
            texts(r@) == texts(list@).take(i as int),
    {
        let item: String = list[i].clone();
        let ghost before = r@;
        r.push(item);
        assert(texts(r@) =~= texts(before).push(item@));
        assert(texts(r@) =~= texts(list@).take(i + 1));
    }
    assert(texts(list@).take(list.len() as int) =~= texts(list@));
    r
}

/// A copy of an optional string.
pub fn copy_opt_text(text: &Option<String>) -> (r: Option<String>)
    ensures
        opt_text(r) == opt_text(*text),
{
    match text {
        Some(t) => Some(t.clone()),
        None => None,
    }
}

/// Whether two strings hold the same characters.
pub fn same_text(a: &str, b: &str) -> (r: bool)
    ensures
        r == (a@ == b@),
{
    a.to_owned() == b.to_owned()
}

/// The characters of a string, one by one.
pub fn chars_of(s: &str) -> (r: Vec<char>)
    ensures
        r@ == s@,
{
    let mut r: Vec<char> = Vec::new();
    for c in it: s.chars()
        invariant
            r@ == s@.take(it.index()),
            it.seq() == s@,
    {
        r.push(c);
    }
    r
}

/// The string made of the characters `from..to`.
pub fn string_of(chars: &Vec<char>, from: usize, to: usize) -> (r: String)
    requires
        from <= to <= chars.len(),
    ensures
        r@ == chars@.subrange(from as int, to as int),
{
    let mut r = String::new();
    for i in from..to
        invariant
            from <= to <= chars.len(),
            r@ == chars@.subrange(from as int, i as int),
    {
        r.push(chars[i]);
        assert(r@ =~= chars@.subrange(from as int, i + 1));
    }
    r
}

// ---------------------------------------------------------------------------
// Decimal numbers
// ---------------------------------------------------------------------------

/// The character of one decimal digit.
pub open spec fn digit_char(d: nat) -> char {
    (48 + d) as char
}

/// The decimal digits of a number, without leading zeros.
pub open spec fn decimal(n: nat) -> Seq<char>
    decreases n,
{
    if n < 10 {
        seq![digit_char(n)]
    } else {
        decimal(n / 10).push(digit_char(n % 10))
    }
}

/// Appends the decimal digits of `n`.
pub fn push_decimal(out: &mut String, n: u128)
    ensures
        final(out)@ == old(out)@ + decimal(n as nat),
    decreases n,
{
    if n >= 10 {
        push_decimal(out, n / 10);
    }
    let d: u8 = (n % 10) as u8;
    out.push((48 + d) as char);
}

/// Whether a character is one of the digits `0` to `9`.
pub open spec fn is_digit(c: char) -> bool {
    48 <= c as nat <= 57
}

/// The value of a decimal digit.
pub fn digit_value(c: char) -> (r: Option<u32>)
    ensures
        match r {
            Some(d) => is_digit(c) && d == c as nat - 48,
            None => !is_digit(c),
        },
{
    let n: u32 = c as u32;
    if 48 <= n && n <= 57 {
        Some(n - 48)
    } else {
        None
    }
}

/// The number that a sequence of decimal digits stands for.
pub open spec fn digits_value(s: Seq<char>) -> nat
    decreases s.len(),
{
    if s.len() == 0 {
        0
    } else {
        (10 * digits_value(s.drop_last()) + (s.last() as nat - 48)) as nat
    }
}

/// Whether a text is made of one or more decimal digits.
pub open spec fn all_digits(s: Seq<char>) -> bool {
    s.len() > 0 && forall|i: int| 0 <= i < s.len() ==> is_digit(#[trigger] s[i])
}

/// A text without a plus sign at its start.
pub open spec fn without_plus(s: Seq<char>) -> Seq<char> {
    if s.len() > 0 && s[0] == '+' {
        s.skip(1)
    } else {
        s
    }
}

/// The unsigned number below `limit` that a text spells: an optional plus
/// sign, then one or more decimal digits.
pub open spec fn unsigned_number(s: Seq<char>, limit: nat) -> Option<nat> {
    if all_digits(without_plus(s)) && digits_value(without_plus(s)) < limit {
        Some(digits_value(without_plus(s)))
    } else {
        None
    }
}

/// Reads a 16-bit number out of the characters from position `from` on.
pub fn parse_u16(chars: &Vec<char>, from: usize) -> (r: Option<u16>)
    requires
        from <= chars.len(),
    ensures
        match r {
            Some(n) => unsigned_number(chars@.skip(from as int), 65536) == Some(n as nat),
            None => unsigned_number(chars@.skip(from as int), 65536) is None,
        },
{
    let ghost whole = chars@.skip(from as int);
    let mut start: usize = from;
    if from < chars.len() && chars[from] == '+' {
        start = from + 1;
    }
    let ghost digits = chars@.skip(start as int);
    assert(digits =~= without_plus(whole));
    if start == chars.len() {
        return None;
    }
    let mut value: u32 = 0;
    for i in start..chars.len()
        invariant
            from <= start < chars.len(),
            start <= i,
            digits == chars@.skip(start as int),
            forall|k: int| 0 <= k < i - start ==> is_digit(#[trigger] digits[k]),
            value <= 65536,
            value < 65536 ==> value as nat == digits_value(digits.take(i - start)),
            value == 65536 ==> digits_value(digits.take(i - start)) >= 65536,
            whole == chars@.skip(from as int),
            digits == without_plus(whole),
    {
        let c: char = chars[i];
        assert(c == digits[i - start]);
        let d: u32 = match digit_value(c) {
            Some(d) => d,
            None => {
                assert(!is_digit(digits[i - start]));
                return None;
            },
        };
        assert(digits.take(i + 1 - start).drop_last() =~= digits.take(i - start));
        assert(digits.take(i + 1 - start).last() == c);
        if value >= 65536 || value * 10 + d >= 65536 {
            value = 65536;
        } else {
            value = value * 10 + d;
        }
    }
    assert(digits.take(chars.len() - start) =~= digits);
    if value < 65536 {
        Some(value as u16)
    } else {
        None
    }
}

/// The digits of a number spell that number.
pub proof fn lemma_decimal_spells(n: nat)
    ensures
        all_digits(decimal(n)),
        digits_value(decimal(n)) == n,
    decreases n,
{
    let s = decimal(n);
    if n < 10 {
        assert(s.drop_last() =~= Seq::<char>::empty());
        assert(digits_value(s.drop_last()) == 0);
        assert(s.last() == digit_char(n));
    } else {
        lemma_decimal_spells(n / 10);
        assert(s.drop_last() =~= decimal(n / 10));
        assert(s.last() == digit_char(n % 10));
        assert forall|i: int| 0 <= i < s.len() implies is_digit(#[trigger] s[i]) by {
            if i < s.len() - 1 {
                assert(s[i] == decimal(n / 10)[i]);
            }
        }
    }
}

/// Different numbers have different digits.
pub proof fn lemma_decimal_injective(a: nat, b: nat)
    requires
        decimal(a) == decimal(b),
    ensures
        a == b,
{
    lemma_decimal_spells(a);
    lemma_decimal_spells(b);
}

/// Reading the digits of a number gives the number back, as long as it is
/// below the limit.
pub proof fn lemma_decimal_reads_back(n: nat, limit: nat)
    ensures
        unsigned_number(decimal(n), limit) == (if n < limit {
            Some(n)
        } else {
            None
        }),
{
    lemma_decimal_spells(n);
    assert(is_digit(decimal(n)[0]));
}

// ---------------------------------------------------------------------------
// White space
// ---------------------------------------------------------------------------

/// The characters with the Unicode property `White_Space`.
pub open spec fn white_space(c: char) -> bool {
    let n = c as nat;
    ||| 0x9 <= n <= 0xd
    ||| n == 0x20
    ||| n == 0x85
    ||| n == 0xa0
    ||| n == 0x1680
    ||| 0x2000 <= n <= 0x200a
    ||| n == 0x2028
    ||| n == 0x2029
    ||| n == 0x202f
    ||| n == 0x205f
    ||| n == 0x3000
}

/// Whether a character is white space.
pub fn is_white_space(c: char) -> (r: bool)
    ensures
        r == white_space(c),
{
    let n: u32 = c as u32;
    (0x9 <= n && n <= 0xd) || n == 0x20 || n == 0x85 || n == 0xa0 || n == 0x1680 || (0x2000 <= n
        && n <= 0x200a) || n == 0x2028 || n == 0x2029 || n == 0x202f || n == 0x205f || n == 0x3000
}

/// A text without the white space at its two ends.
pub open spec fn trimmed(s: Seq<char>) -> Seq<char>
    decreases s.len(),
{
    if s.len() > 0 && white_space(s.first()) {
        trimmed(s.drop_first())
    } else if s.len() > 0 && white_space(s.last()) {
        trimmed(s.drop_last())
    } else {
        s
    }
}

/// The bounds of the part of `from..to` that has no white space at its ends.
pub fn trim_bounds(chars: &Vec<char>, from: usize, to: usize) -> (r: (usize, usize))
    requires
        from <= to <= chars.len(),
    ensures
        from <= r.0 <= r.1 <= to,
        chars@.subrange(r.0 as int, r.1 as int) == trimmed(
            chars@.subrange(from as int, to as int),
        ),
{
    let ghost want = trimmed(chars@.subrange(from as int, to as int));
    let mut a: usize = from;
    while a < to && is_white_space(chars[a])
        invariant
            from <= a <= to <= chars.len(),
            trimmed(chars@.subrange(a as int, to as int)) == want,
        decreases to - a,
    {
        assert(chars@.subrange(a as int, to as int).drop_first() =~= chars@.subrange(
            a + 1,
            to as int,
        ));
        a = a + 1;
    }
    let mut b: usize = to;
    while a < b && is_white_space(chars[b - 1])
        invariant
            from <= a <= b <= to <= chars.len(),
            a < b ==> !white_space(chars@[a as int]),
            trimmed(chars@.subrange(a as int, b as int)) == want,
        decreases b,
    {
        assert(chars@.subrange(a as int, b as int).drop_last() =~= chars@.subrange(
            a as int,
            b - 1,
        ));
        b = b - 1;
    }
    (a, b)
}

// ---------------------------------------------------------------------------
// Searching and replacing
// ---------------------------------------------------------------------------

/// The last position of a character in a text, or -1.
pub open spec fn last_position(s: Seq<char>, c: char) -> int
    decreases s.len(),
{
    if s.len() == 0 {
        -1
    } else if s.last() == c {
        s.len() - 1
    } else {
        last_position(s.drop_last(), c)
    }
}

/// The last position holds the character, and no later one does.
pub proof fn lemma_last_position(s: Seq<char>, c: char)
    ensures
        -1 <= last_position(s, c) < s.len(),
        last_position(s, c) >= 0 ==> s[last_position(s, c)] == c,
        forall|i: int| last_position(s, c) < i < s.len() ==> #[trigger] s[i] != c,
    decreases s.len(),
{
    if s.len() > 0 && s.last() != c {
        lemma_last_position(s.drop_last(), c);
        assert forall|i: int| last_position(s, c) < i < s.len() implies #[trigger] s[i] != c by {
            if i < s.len() - 1 {
                assert(s.drop_last()[i] != c);
            }
        }
    }
}

/// The last position of `c` among the first `to` characters.
pub fn find_last(chars: &Vec<char>, to: usize, c: char) -> (r: Option<usize>)
    requires
        to <= chars.len(),
    ensures
        match r {
            Some(p) => p < to && last_position(chars@.take(to as int), c) == p,
            None => last_position(chars@.take(to as int), c) == -1,
        },
{
    let mut i: usize = to;
    while i > 0
        invariant
            i <= to <= chars.len(),
            last_position(chars@.take(to as int), c) == last_position(chars@.take(i as int), c),
        decreases i,
    {
        assert(chars@.take(i as int).drop_last() =~= chars@.take(i - 1));
        if chars[i - 1] == c {
            return Some(i - 1);
        }
        i = i - 1;
    }
    None
}

/// A text with every backslash turned into a slash.
pub open spec fn forward_slashes(s: Seq<char>) -> Seq<char> {
    s.map_values(
        |c: char|
            if c == '\\' {
                '/'
            } else {
                c
            },
    )
}

/// Turns every backslash into a slash.
pub fn with_forward_slashes(s: &str) -> (r: String)
    ensures
        r@ == forward_slashes(s@),
{
    let chars = chars_of(s);
    let mut r = String::new();
    for i in 0..chars.len()
        invariant
            chars@ == s@,
            r@ == forward_slashes(s@).take(i as int),
    {
        if chars[i] == '\\' {
            r.push('/');
        } else {
            r.push(chars[i]);
        }
        assert(r@ =~= forward_slashes(s@).take(i + 1));
    }
    assert(forward_slashes(s@).take(chars.len() as int) =~= forward_slashes(s@));
    r
}

// ---------------------------------------------------------------------------
// Order
// ---------------------------------------------------------------------------

/// Whether `a` comes strictly before `b` in the order of strings: by the first
/// character in which they differ, a proper prefix first.
pub open spec fn text_less(a: Seq<char>, b: Seq<char>) -> bool
    decreases a.len(),
{
    if b.len() == 0 {
        false
    } else if a.len() == 0 {
        true
    } else {
        a[0] < b[0] || (a[0] == b[0] && text_less(a.drop_first(), b.drop_first()))
    }
}

/// Whether `a` comes strictly before `b`.
pub fn is_text_less(a: &Vec<char>, b: &Vec<char>) -> (r: bool)
    ensures
        r == text_less(a@, b@),
{
    let mut i: usize = 0;
    assert(a@.skip(0) =~= a@);
    assert(b@.skip(0) =~= b@);
    while i < a.len() && i < b.len()
        invariant
            i <= a.len(),
            i <= b.len(),
            text_less(a@, b@) == text_less(a@.skip(i as int), b@.skip(i as int)),
        decreases a.len() - i,
    {
        assert(a@.skip(i as int).drop_first() =~= a@.skip(i + 1));
        assert(b@.skip(i as int).drop_first() =~= b@.skip(i + 1));
        if a[i] < b[i] {
            return true;
        }
        if a[i] != b[i] {
            return false;
        }
        i = i + 1;
    }
    i < b.len()
}

/// No text comes before itself.
pub proof fn lemma_text_less_irreflexive(a: Seq<char>)
    ensures
        !text_less(a, a),
    decreases a.len(),
{
    if a.len() > 0 {
        lemma_text_less_irreflexive(a.drop_first());
    }
}

/// The order of texts is transitive.
pub proof fn lemma_text_less_transitive(a: Seq<char>, b: Seq<char>, c: Seq<char>)
    requires
        text_less(a, b),
        text_less(b, c),
    ensures
        text_less(a, c),
    decreases a.len(),
{
    if a.len() > 0 && a[0] == b[0] && b[0] == c[0] {
        lemma_text_less_transitive(a.drop_first(), b.drop_first(), c.drop_first());
    }
}

/// Of two different texts one comes before the other.
pub proof fn lemma_text_less_total(a: Seq<char>, b: Seq<char>)
    ensures
        a == b || text_less(a, b) || text_less(b, a),
    decreases a.len(),
{
    if a.len() > 0 && b.len() > 0 && a[0] == b[0] {
        lemma_text_less_total(a.drop_first(), b.drop_first());
        if a.drop_first() == b.drop_first() {
            assert(a =~= seq![a[0]] + a.drop_first());
            assert(b =~= seq![b[0]] + b.drop_first());
        }
    } else if a.len() == 0 && b.len() == 0 {
        assert(a =~= b);
    }
}

// ---------------------------------------------------------------------------
// What these mean
// ---------------------------------------------------------------------------

/// Turning backslashes into slashes changes them and nothing else.
pub proof fn lemma_forward_slashes(s: Seq<char>)
    ensures
        forward_slashes(s).len() == s.len(),
        forall|i: int|
            0 <= i < s.len() ==> #[trigger] forward_slashes(s)[i] == (if s[i] == '\\' {
                '/'
            } else {
                s[i]
            }),
{
}

/// What is trimmed off a text is white space, and what is left begins and ends
/// with something else, or is empty.
pub proof fn lemma_trimmed(s: Seq<char>) -> (bounds: (int, int))
    ensures
        0 <= bounds.0 <= bounds.1 <= s.len(),
        trimmed(s) == s.subrange(bounds.0, bounds.1),
        forall|i: int| 0 <= i < bounds.0 ==> white_space(#[trigger] s[i]),
        forall|i: int| bounds.1 <= i < s.len() ==> white_space(#[trigger] s[i]),
        bounds.0 < bounds.1 ==> !white_space(s[bounds.0]) && !white_space(s[bounds.1 - 1]),
    decreases s.len(),
{
    if s.len() > 0 && white_space(s.first()) {
        let rest = s.drop_first();
        let (a, b) = lemma_trimmed(rest);
        assert(rest.subrange(a, b) =~= s.subrange(a + 1, b + 1));
        assert forall|i: int| 0 <= i < a + 1 implies white_space(#[trigger] s[i]) by {
            if i > 0 {
                assert(rest[i - 1] == s[i]);
            }
        }
        assert forall|i: int| b + 1 <= i < s.len() implies white_space(#[trigger] s[i]) by {
            assert(rest[i - 1] == s[i]);
        }
        (a + 1, b + 1)
    } else if s.len() > 0 && white_space(s.last()) {
        let rest = s.drop_last();
        let (a, b) = lemma_trimmed(rest);
        assert(rest.subrange(a, b) =~= s.subrange(a, b));
        assert forall|i: int| 0 <= i < a implies white_space(#[trigger] s[i]) by {
            assert(rest[i] == s[i]);
        }
        assert forall|i: int| b <= i < s.len() implies white_space(#[trigger] s[i]) by {
            if i < rest.len() {
                assert(rest[i] == s[i]);
            }
        }
        (a, b)
    } else {
        assert(s.subrange(0, s.len() as int) =~= s);
        (0, s.len() as int)
    }
}

/// White space around a text is trimmed off, whatever the text.
pub proof fn lemma_trimmed_of_padded(before: Seq<char>, s: Seq<char>, after: Seq<char>)
    requires
        forall|i: int| 0 <= i < before.len() ==> white_space(#[trigger] before[i]),
        forall|i: int| 0 <= i < after.len() ==> white_space(#[trigger] after[i]),
        s.len() > 0 ==> !white_space(s.first()) && !white_space(s.last()),
    ensures
        trimmed(before + s + after) == s,
    decreases before.len() + after.len(),
{
    let all = before + s + after;
    if before.len() > 0 {
        assert(all.first() == before[0]);
        assert(all.drop_first() =~= before.drop_first() + s + after);
        assert forall|i: int| 0 <= i < before.drop_first().len() implies white_space(
            #[trigger] before.drop_first()[i],
        ) by {
            assert(before[i + 1] == before.drop_first()[i]);
        }
        lemma_trimmed_of_padded(before.drop_first(), s, after);
    } else if after.len() > 0 {
        if s.len() == 0 {
            assert(all =~= after);
            assert(all.first() == after[0]);
            assert(all.drop_first() =~= before + s + after.drop_first());
            assert forall|i: int| 0 <= i < after.drop_first().len() implies white_space(
                #[trigger] after.drop_first()[i],
            ) by {
                assert(after[i + 1] == after.drop_first()[i]);
            }
            lemma_trimmed_of_padded(before, s, after.drop_first());
        } else {
            assert(all.first() == s.first());
            assert(all.last() == after[after.len() - 1]);
            assert(all.drop_last() =~= before + s + after.drop_last());
            assert forall|i: int| 0 <= i < after.drop_last().len() implies white_space(
                #[trigger] after.drop_last()[i],
            ) by {
                assert(after[i] == after.drop_last()[i]);
            }
            lemma_trimmed_of_padded(before, s, after.drop_last());
        }
    } else {
        assert(all =~= s);
    }
}

/// The characters that count as white space, by their numbers.
pub proof fn lemma_white_space(c: char)
    ensures
        white_space(c) == (c == ' ' || c == '\t' || c == '\n' || c == '\r' || c as nat == 0xb || c as nat
            == 0xc || c as nat == 0x85 || c as nat == 0xa0 || c as nat == 0x1680 || 0x2000
            <= c as nat <= 0x200a || c as nat == 0x2028 || c as nat == 0x2029 || c as nat == 0x202f
            || c as nat == 0x205f || c as nat == 0x3000),
{
}

/// A digit more makes a number ten times as large and adds the digit.
pub proof fn lemma_digits_value(s: Seq<char>, d: nat)
    requires
        d < 10,
    ensures
        digits_value(Seq::empty()) == 0,
        digits_value(s.push(digit_char(d))) == 10 * digits_value(s) + d,
        digit_char(d) as nat == '0' as nat + d,
{
    assert(s.push(digit_char(d)).drop_last() =~= s);
}

/// The digits are the characters from `0` to `9`.
pub proof fn lemma_is_digit(c: char)
    ensures
        is_digit(c) == ('0' <= c <= '9'),
{
}

/// What spells a number: one or more digits, perhaps after a plus sign, that
/// stand for a number below the limit. Nothing else does.
pub proof fn lemma_unsigned_number(s: Seq<char>, limit: nat)
    requires
        s.len() > 0,
    ensures
        (forall|i: int| 0 <= i < s.len() ==> '0' <= #[trigger] s[i] <= '9') ==> {
            &&& digits_value(s) < limit ==> unsigned_number(s, limit) == Some(digits_value(s))
            &&& digits_value(s) < limit ==> unsigned_number(seq!['+'] + s, limit) == Some(
                digits_value(s),
            )
            &&& digits_value(s) >= limit ==> unsigned_number(s, limit) is None
        },
        unsigned_number(Seq::empty(), limit) is None,
        unsigned_number(seq!['+'], limit) is None,
        (exists|i: int| 0 < i < s.len() && !('0' <= #[trigger] s[i] <= '9'))
            ==> unsigned_number(s, limit) is None,
        s[0] != '+' && !('0' <= s[0] <= '9') ==> unsigned_number(s, limit) is None,
{
    let plus = seq!['+'] + s;
    assert(without_plus(plus) =~= s);
    assert(without_plus(seq!['+']) =~= Seq::<char>::empty());
    if forall|i: int| 0 <= i < s.len() ==> '0' <= #[trigger] s[i] <= '9' {
        assert('0' <= s[0] <= '9');
        assert forall|i: int| 0 <= i < s.len() implies is_digit(#[trigger] s[i]) by {
            assert('0' <= s[i] <= '9');
            lemma_is_digit(s[i]);
        }
    }
    if exists|i: int| 0 < i < s.len() && !('0' <= #[trigger] s[i] <= '9') {
        let i = choose|i: int| 0 < i < s.len() && !('0' <= #[trigger] s[i] <= '9');
        lemma_is_digit(s[i]);
        if s[0] == '+' {
            assert(s.skip(1)[i - 1] == s[i]);
            assert(!is_digit(s.skip(1)[i - 1]));
        } else {
            assert(!is_digit(s[i]));
        }
    }
    if s[0] != '+' && !('0' <= s[0] <= '9') {
        lemma_is_digit(s[0]);
        assert(!is_digit(s[0]));
    }
}

/// The order of texts is decided by the first character in which they differ,
/// and a text comes before all that it begins.
pub proof fn lemma_text_less(common: Seq<char>, a: Seq<char>, b: Seq<char>)
    ensures
        a.len() > 0 && b.len() > 0 && a[0] != b[0] ==> text_less(common + a, common + b) == (a[0]
            < b[0]),
        a.len() == 0 && b.len() > 0 ==> text_less(common + a, common + b),
        b.len() == 0 ==> !text_less(common + a, common + b),
    decreases common.len(),
{
    if common.len() > 0 {
        let rest = common.drop_first();
        lemma_text_less(rest, a, b);
        assert((common + a).drop_first() =~= rest + a);
        assert((common + b).drop_first() =~= rest + b);
        assert((common + a)[0] == (common + b)[0]);
    } else {
        assert(common + a =~= a);
        assert(common + b =~= b);
    }
}

} // verus!
