//! Text as sequences of characters: building, taking apart, decimal numbers.

use vstd::prelude::*;

verus! {

/// `String::push` appends one character.
pub assume_specification[ String::push ](s: &mut String, ch: char)
    ensures
        final(s)@ == old(s)@.push(ch),
;

/// `String::push_str` appends a text.
pub assume_specification[ String::push_str ](s: &mut String, text: &str)
    ensures
        final(s)@ == old(s)@ + text@,
;

/// A text in upper case, as Unicode has it.
pub uninterp spec fn uppercase(s: Seq<char>) -> Seq<char>;

/// A text in lower case, as Unicode has it.
pub uninterp spec fn lowercase(s: Seq<char>) -> Seq<char>;

/// `str::to_uppercase` depends on its text alone.
pub assume_specification[ str::to_uppercase ](s: &str) -> (upper: String)
    ensures
        upper@ == uppercase(s@),
;

/// `str::to_lowercase` depends on its text alone.
pub assume_specification[ str::to_lowercase ](s: &str) -> (lower: String)
    ensures
        lower@ == lowercase(s@),
;

/// The characters of a text.
pub fn chars_of(s: &str) -> (chars: Vec<char>)
    ensures
        chars@ == s@,
{
    let mut chars: Vec<char> = Vec::new();
    for c in it: s.chars()
        invariant
            it.seq() == s@,
            chars@ == s@.take(it.index()),
    {
        chars.push(c);
        assert(chars@ =~= s@.take(it.index() + 1));
    }
    assert(s@.take(s@.len() as int) =~= s@);
    chars
}

/// The text made of the characters from `from` up to `to`.
pub fn text_of(chars: &[char], from: usize, to: usize) -> (s: String)
    requires
        from <= to <= chars@.len(),
    ensures
        s@ == chars@.subrange(from as int, to as int),
{
    let mut s = String::new();
    let mut i: usize = from;
    while i < to
        invariant
            from <= i <= to <= chars@.len(),
            s@ == chars@.subrange(from as int, i as int),
        decreases to - i,
    {
        s.push(chars[i]);
        assert(s@ =~= chars@.subrange(from as int, i + 1));
        i += 1;
    }
    s
}

/// Whether two texts are equal.
pub fn same_text(a: &str, b: &str) -> (same: bool)
    ensures
        same == (a@ == b@),
{
    let left: Vec<char> = chars_of(a);
    let right: Vec<char> = chars_of(b);
    if left.len() != right.len() {
        return false;
    }
    let mut i: usize = 0;
    while i < left.len()
        invariant
            i <= left@.len(),
            left@ == a@,
            right@ == b@,
            left@.len() == right@.len(),
            left@.take(i as int) == right@.take(i as int),
        decreases left.len() - i,
    {
        if left[i] != right[i] {
            return false;
        }
        assert(left@.take(i + 1) =~= left@.take(i as int).push(left@[i as int]));
        assert(right@.take(i + 1) =~= right@.take(i as int).push(right@[i as int]));
        i += 1;
    }
    assert(left@.take(left@.len() as int) =~= left@);
    assert(right@.take(right@.len() as int) =~= right@);
    true
}

/// The character of a decimal digit.
pub open spec fn digit_char(d: nat) -> char {
    if d == 0 {
        '0'
    } else if d == 1 {
        '1'
    } else if d == 2 {
        '2'
    } else if d == 3 {
        '3'
    } else if d == 4 {
        '4'
    } else if d == 5 {
        '5'
    } else if d == 6 {
        '6'
    } else if d == 7 {
        '7'
    } else if d == 8 {
        '8'
    } else {
        '9'
    }
}

fn digit(d: u64) -> (c: char)
    requires
        d < 10,
    ensures
        c == digit_char(d as nat),
{
    if d == 0 {
        '0'
    } else if d == 1 {
        '1'
    } else if d == 2 {
        '2'
    } else if d == 3 {
        '3'
    } else if d == 4 {
        '4'
    } else if d == 5 {
        '5'
    } else if d == 6 {
        '6'
    } else if d == 7 {
        '7'
    } else if d == 8 {
        '8'
    } else {
        '9'
    }
}

/// A number in decimal, without leading zeros.
pub open spec fn decimal(n: nat) -> Seq<char>
    decreases n,
{
    if n < 10 {
        seq![digit_char(n)]
    } else {
        decimal(n / 10).push(digit_char(n % 10))
    }
}

/// Appends a number in decimal.
pub fn push_decimal(s: &mut String, n: u64)
    ensures
        final(s)@ == old(s)@ + decimal(n as nat),
    decreases n,
{
    if n >= 10 {
        push_decimal(s, n / 10);
    }
    s.push(digit(n % 10));
    assert(s@ =~= old(s)@ + decimal(n as nat));
}

/// An integer in decimal, with a leading minus sign if it is negative.
pub open spec fn signed_decimal(n: int) -> Seq<char> {
    if n < 0 {
        seq!['-'] + decimal((-n) as nat)
    } else {
        decimal(n as nat)
    }
}

/// Appends an integer in decimal.
pub fn push_signed_decimal(s: &mut String, n: i64)
    ensures
        final(s)@ == old(s)@ + signed_decimal(n as int),
{
    if n < 0 {
        s.push('-');
        let magnitude: u64 = (-1 - n) as u64 + 1;
        push_decimal(s, magnitude);
        assert(s@ =~= old(s)@ + signed_decimal(n as int));
    } else {
        push_decimal(s, n as u64);
    }
}

/// The last `width` decimal digits of a number, with leading zeros.
pub open spec fn padded(n: nat, width: nat) -> Seq<char>
    decreases width,
{
    if width == 0 {
        Seq::empty()
    } else {
        padded(n / 10, (width - 1) as nat).push(digit_char(n % 10))
    }
}

/// Appends the last `width` decimal digits of a number, with leading zeros.
pub fn push_padded(s: &mut String, n: u64, width: u8)
    ensures
        final(s)@ == old(s)@ + padded(n as nat, width as nat),
    decreases width,
{
    if width > 0 {
        push_padded(s, n / 10, width - 1);
        s.push(digit(n % 10));
    }
    assert(s@ =~= old(s)@ + padded(n as nat, width as nat));
}

/// `n / d` to the nearest integer, halves to the even one.
pub open spec fn half_even(n: nat, d: nat) -> nat {
    let q = n / d;
    if 2 * (n % d) > d || (2 * (n % d) == d && q % 2 == 1) {
        q + 1
    } else {
        q
    }
}

/// A fraction of a second, as a power of two of them, in which `us` microseconds have 53
/// binary digits, if `us` has too few: `unit`, doubled as often as `n`, which starts out as
/// `us * unit`.
pub open spec fn binary_unit(n: nat, unit: nat) -> nat
    decreases 0x20_0000_0000_0000 * 1_000_000 - n,
{
    if n == 0 || n >= 0x10_0000_0000_0000 * 1_000_000 {
        unit
    } else {
        binary_unit(2 * n, 2 * unit)
    }
}

/// Microseconds in milliseconds, as seconds are rounded that have double precision: to 53
/// binary digits, and then to the nearest millisecond, halves to the even one.
pub open spec fn rounded_millis(us: nat) -> nat {
    let unit = binary_unit(us, 1);
    half_even(half_even(us * unit, 1_000_000) * 1000, unit)
}

fn round_half_even(n: u128, d: u128) -> (q: u128)
    requires
        0 < d <= 0x1_0000_0000_0000_0000_0000_0000,
    ensures
        q == half_even(n as nat, d as nat),
{
    let q: u128 = n / d;
    let r: u128 = n % d;
    proof {
        assert(n / d <= n) by (nonlinear_arith)
            requires
                0 < d,
                0 <= n,
        ;
        if d == 1 {
            assert(r == 0);
        } else {
            assert(n / d <= n / 2) by (nonlinear_arith)
                requires
                    d >= 2,
                    0 <= n,
            ;
        }
    }
    if 2 * r > d || (2 * r == d && q % 2 == 1) {
        q + 1
    } else {
        q
    }
}

fn round_to_millis(us: u64) -> (ms: u64)
    ensures
        ms == rounded_millis(us as nat),
{
    let mut n: u128 = us as u128;
    let mut unit: u128 = 1;
    while n != 0 && n < 0x10_0000_0000_0000 * 1_000_000
        invariant
            n == us * unit,
            n <= 0x20_0000_0000_0000 * 1_000_000,
            us > 0 ==> unit <= n,
            us == 0 ==> unit == 1,
            unit > 0,
            binary_unit(n as nat, unit as nat) == binary_unit(us as nat, 1),
        decreases 0x20_0000_0000_0000 * 1_000_000 - n,
    {
        assert(us * (2 * unit) == 2 * (us * unit)) by (nonlinear_arith);
        n = 2 * n;
        unit = 2 * unit;
    }
    let q: u128 = round_half_even(n, 1_000_000);
    let ms: u128 = round_half_even(q * 1000, unit);
    proof {
        assert((q * 1000) / unit as int <= q * 1000) by (nonlinear_arith)
            requires
                unit > 0,
                q >= 0,
        ;
    }
    ms as u64
}

/// Microseconds written as seconds with three decimals.
pub open spec fn seconds3(us: nat) -> Seq<char> {
    decimal(rounded_millis(us) / 1000) + "."@ + padded(rounded_millis(us) % 1000, 3)
}

/// Microseconds written as seconds with six decimals.
pub open spec fn seconds6(us: nat) -> Seq<char> {
    decimal(us / 1_000_000) + "."@ + padded(us % 1_000_000, 6)
}

/// Appends microseconds as seconds with three decimals.
pub fn push_seconds3(s: &mut String, us: u64)
    ensures
        final(s)@ == old(s)@ + seconds3(us as nat),
{
    let ms: u64 = round_to_millis(us);
    push_decimal(s, ms / 1000);
    s.push_str(".");
    push_padded(s, ms % 1000, 3);
    assert(s@ =~= old(s)@ + seconds3(us as nat));
}

/// Appends microseconds as seconds with six decimals.
pub fn push_seconds6(s: &mut String, us: u64)
    ensures
        final(s)@ == old(s)@ + seconds6(us as nat),
{
    push_decimal(s, us / 1_000_000);
    s.push_str(".");
    push_padded(s, us % 1_000_000, 6);
    assert(s@ =~= old(s)@ + seconds6(us as nat));
}

/// `a` comes before `b` in the order of their characters.
pub open spec fn text_less(a: Seq<char>, b: Seq<char>) -> bool
    decreases a.len(),
{
    if b.len() == 0 {
        false
    } else if a.len() == 0 {
        true
    } else if a[0] != b[0] {
        a[0] < b[0]
    } else {
        text_less(a.drop_first(), b.drop_first())
    }
}

/// Whether `a` comes before `b`.
pub fn is_text_less(a: &str, b: &str) -> (less: bool)
    ensures
        less == text_less(a@, b@),
{
    let left: Vec<char> = chars_of(a);
    let right: Vec<char> = chars_of(b);
    let mut i: usize = 0;
    assert(left@.skip(0) =~= left@);
    assert(right@.skip(0) =~= right@);
    while i < left.len() && i < right.len()
        invariant
            i <= left@.len(),
            i <= right@.len(),
            left@ == a@,
            right@ == b@,
            text_less(left@.skip(i as int), right@.skip(i as int)) == text_less(a@, b@),
        decreases left.len() - i,
    {
        if left[i] != right[i] {
            return left[i] < right[i];
        }
        assert(left@.skip(i as int).drop_first() =~= left@.skip(i + 1));
        assert(right@.skip(i as int).drop_first() =~= right@.skip(i + 1));
        i += 1;
    }
    i < right.len()
}

/// `needle` stands at `i`.
pub open spec fn occurs_at(s: Seq<char>, needle: Seq<char>, i: int) -> bool {
    0 <= i && i + needle.len() <= s.len() && s.subrange(i, i + needle.len()) == needle
}

/// `needle` stands somewhere in `s`.
pub open spec fn holds_text(s: Seq<char>, needle: Seq<char>) -> bool {
    exists|i: int| occurs_at(s, needle, i)
}

/// Whether `needle` stands at `pos`.
pub fn is_at(s: &[char], needle: &[char], pos: usize) -> (b: bool)
    requires
        pos <= s@.len(),
    ensures
        b == occurs_at(s@, needle@, pos as int),
{
    if needle.len() > s.len() - pos {
        return false;
    }
    let mut i: usize = 0;
    while i < needle.len()
        invariant
            i <= needle@.len(),
            pos + needle@.len() <= s.len(),
            s@.subrange(pos as int, pos + i) == needle@.take(i as int),
        decreases needle.len() - i,
    {
        if s[pos + i] != needle[i] {
            assert(s@.subrange(pos as int, pos + needle@.len())[i as int] == s@[pos + i]);
            return false;
        }
        assert(s@.subrange(pos as int, pos + i + 1) =~= s@.subrange(pos as int, pos + i).push(
            s@[pos + i],
        ));
        assert(needle@.take(i + 1) =~= needle@.take(i as int).push(needle@[i as int]));
        i += 1;
    }
    assert(needle@.take(needle@.len() as int) =~= needle@);
    true
}

/// Whether `needle` stands somewhere in `s`.
pub fn contains_text(s: &str, needle: &str) -> (b: bool)
    ensures
        b == holds_text(s@, needle@),
{
    let text: Vec<char> = chars_of(s);
    let word: Vec<char> = chars_of(needle);
    let mut i: usize = 0;
    loop
        invariant
            i <= text@.len(),
            text@ == s@,
            word@ == needle@,
            forall|j: int| 0 <= j < i ==> !occurs_at(s@, needle@, j),
        decreases text.len() - i,
    {
        if is_at(text.as_slice(), word.as_slice(), i) {
            assert(occurs_at(s@, needle@, i as int));
            return true;
        }
        if i == text.len() {
            assert forall|j: int| !occurs_at(s@, needle@, j) by {}
            return false;
        }
        i += 1;
    }
}

/// The parts of a text between the characters `sep`; a text without one is one part.
pub open spec fn split_on(s: Seq<char>, sep: char) -> Seq<Seq<char>>
    decreases s.len(),
{
    if s.len() == 0 {
        seq![Seq::empty()]
    } else {
        let before = split_on(s.drop_last(), sep);
        if s.last() == sep {
            before.push(Seq::empty())
        } else {
            before.drop_last().push(before.last().push(s.last()))
        }
    }
}

/// Texts as values.
pub open spec fn texts_of(list: Seq<String>) -> Seq<Seq<char>> {
    Seq::new(list.len(), |i: int| list[i]@)
}

proof fn lemma_split_not_empty(s: Seq<char>, sep: char)
    ensures
        split_on(s, sep).len() > 0,
    decreases s.len(),
{
    if s.len() > 0 {
        lemma_split_not_empty(s.drop_last(), sep);
    }
}

/// Takes a text apart at the characters `sep`.
pub fn split_text(s: &str, sep: char) -> (parts: Vec<String>)
    ensures
        texts_of(parts@) == split_on(s@, sep),
        parts@.len() > 0,
{
    let text: Vec<char> = chars_of(s);
    let mut done: Vec<String> = Vec::new();
    let mut part: String = String::new();
    let mut i: usize = 0;
    assert(texts_of(done@).push(part@) =~= split_on(text@.take(0), sep));
    while i < text.len()
        invariant
            i <= text@.len(),
            texts_of(done@).push(part@) == split_on(text@.take(i as int), sep),
        decreases text.len() - i,
    {
        let ghost before = texts_of(done@).push(part@);
        proof {
            assert(text@.take(i + 1).drop_last() =~= text@.take(i as int));
            assert(before.drop_last() =~= texts_of(done@));
            assert(before.last() == part@);
        }
        if text[i] == sep {
            let ghost earlier = done@;
            done.push(part);
            part = String::new();
            assert(texts_of(done@) =~= before);
            assert(part@ =~= Seq::<char>::empty());
        } else {
            part.push(text[i]);
        }
        i += 1;
    }
    assert(text@.take(text@.len() as int) =~= text@);
    let ghost all = texts_of(done@).push(part@);
    done.push(part);
    assert(texts_of(done@) =~= all);
    done
}

/// Texts put together with `sep` between them.
pub open spec fn joined_with(parts: Seq<Seq<char>>, sep: Seq<char>) -> Seq<char>
    decreases parts.len(),
{
    if parts.len() == 0 {
        Seq::empty()
    } else if parts.len() == 1 {
        parts[0]
    } else {
        joined_with(parts.drop_last(), sep) + sep + parts.last()
    }
}

/// Puts texts together with `sep` between them.
pub fn join_texts(parts: &Vec<String>, sep: &str) -> (out: String)
    ensures
        out@ == joined_with(texts_of(parts@), sep@),
{
    let mut out: String = String::new();
    let mut i: usize = 0;
    while i < parts.len()
        invariant
            i <= parts@.len(),
            out@ == joined_with(texts_of(parts@).take(i as int), sep@),
        decreases parts.len() - i,
    {
        proof {
            let next = texts_of(parts@).take(i + 1);
            assert(next.drop_last() =~= texts_of(parts@).take(i as int));
            assert(next.last() == parts@[i as int]@);
        }
        if i > 0 {
            out.push_str(sep);
        }
        out.push_str(parts[i].as_str());
        assert(out@ =~= joined_with(texts_of(parts@).take(i + 1), sep@));
        i += 1;
    }
    assert(texts_of(parts@).take(parts@.len() as int) =~= texts_of(parts@));
    out
}

/// A text without the characters `c` at its start.
pub open spec fn without_leading(s: Seq<char>, c: char) -> Seq<char>
    decreases s.len(),
{
    if s.len() > 0 && s[0] == c {
        without_leading(s.drop_first(), c)
    } else {
        s
    }
}

/// Takes the characters `c` off the start of a text.
pub fn trim_leading(s: &str, c: char) -> (out: String)
    ensures
        out@ == without_leading(s@, c),
{
    let text: Vec<char> = chars_of(s);
    let mut i: usize = 0;
    assert(text@.skip(0) =~= text@);
    while i < text.len() && text[i] == c
        invariant
            i <= text@.len(),
            text@ == s@,
            without_leading(text@.skip(i as int), c) == without_leading(s@, c),
        decreases text.len() - i,
    {
        assert(text@.skip(i as int).drop_first() =~= text@.skip(i + 1));
        i += 1;
    }
    assert(text@.subrange(i as int, text@.len() as int) =~= text@.skip(i as int));
    text_of(text.as_slice(), i, text.len())
}

/// A character with the `White_Space` property of Unicode.
pub open spec fn is_white(c: char) -> bool {
    let n = c as u32;
    ||| 0x9 <= n <= 0xd
    ||| n == 0x20 || n == 0x85 || n == 0xa0 || n == 0x1680
    ||| 0x2000 <= n <= 0x200a
    ||| n == 0x2028 || n == 0x2029 || n == 0x202f || n == 0x205f || n == 0x3000
}

/// `char::is_whitespace` tells whether a character has the `White_Space` property.
pub assume_specification[ char::is_whitespace ](c: char) -> (white: bool)
    ensures
        white == is_white(c),
;

/// A text without white space at its start.
pub open spec fn without_leading_white(s: Seq<char>) -> Seq<char>
    decreases s.len(),
{
    if s.len() > 0 && is_white(s[0]) {
        without_leading_white(s.drop_first())
    } else {
        s
    }
}

/// A text without white space at its end.
pub open spec fn without_trailing_white(s: Seq<char>) -> Seq<char>
    decreases s.len(),
{
    if s.len() > 0 && is_white(s.last()) {
        without_trailing_white(s.drop_last())
    } else {
        s
    }
}

/// Takes the white space off both ends of a text.
pub fn trim_white(s: &str) -> (out: String)
    ensures
        out@ == without_trailing_white(without_leading_white(s@)),
{
    let text: Vec<char> = chars_of(s);
    let mut from: usize = 0;
    assert(text@.skip(0) =~= text@);
    while from < text.len() && text[from].is_whitespace()
        invariant
            from <= text@.len(),
            text@ == s@,
            without_leading_white(text@.skip(from as int)) == without_leading_white(s@),
        decreases text.len() - from,
    {
        assert(text@.skip(from as int).drop_first() =~= text@.skip(from + 1));
        from += 1;
    }
    let ghost rest = without_leading_white(s@);
    assert(rest == text@.skip(from as int));
    let mut to: usize = text.len();
    assert(text@.subrange(from as int, to as int) =~= rest);
    while to > from && text[to - 1].is_whitespace()
        invariant
            from <= to <= text@.len(),
            without_trailing_white(text@.subrange(from as int, to as int))
                == without_trailing_white(rest),
        decreases to,
    {
        assert(text@.subrange(from as int, to as int).drop_last() =~= text@.subrange(
            from as int,
            to - 1,
        ));
        to -= 1;
    }
    text_of(text.as_slice(), from, to)
}

/// A hexadecimal digit, in lower case.
pub open spec fn hex_char(d: nat) -> char {
    "0123456789abcdef"@[d as int]
}

/// A hexadecimal digit, in lower case.
pub fn hex_digit(d: u8) -> (c: char)
    requires
        d < 16,
    ensures
        c == hex_char(d as nat),
{
    proof {
        reveal_strlit("0123456789abcdef");
    }
    let digits: Vec<char> = chars_of("0123456789abcdef");
    digits[d as usize]
}

/// A text without a character.
pub open spec fn is_free_of(s: Seq<char>, c: char) -> bool {
    forall|i: int| 0 <= i < s.len() ==> #[trigger] s[i] != c
}

proof fn lemma_split_free(s: Seq<char>, sep: char)
    requires
        is_free_of(s, sep),
    ensures
        split_on(s, sep) == seq![s],
    decreases s.len(),
{
    if s.len() > 0 {
        assert forall|i: int| 0 <= i < s.drop_last().len() implies #[trigger] s.drop_last()[i]
            != sep by {
            assert(s.drop_last()[i] == s[i]);
        }
        lemma_split_free(s.drop_last(), sep);
        assert(s[s.len() - 1] != sep);
        assert(s.drop_last().push(s.last()) =~= s);
        assert(seq![s.drop_last()].drop_last().push(s) =~= seq![s]);
    } else {
        assert(s =~= Seq::<char>::empty());
    }
}

proof fn lemma_split_last(a: Seq<char>, b: Seq<char>, sep: char)
    requires
        is_free_of(b, sep),
    ensures
        split_on(a + seq![sep] + b, sep) == split_on(a, sep).push(b),
    decreases b.len(),
{
    let s = a + seq![sep] + b;
    if b.len() == 0 {
        assert(s.drop_last() =~= a);
        assert(s.last() == sep);
        assert(b =~= Seq::<char>::empty());
    } else {
        let c = b.drop_last();
        assert forall|i: int| 0 <= i < c.len() implies #[trigger] c[i] != sep by {
            assert(c[i] == b[i]);
        }
        lemma_split_last(a, c, sep);
        assert(s.drop_last() =~= a + seq![sep] + c);
        assert(s.last() == b.last());
        assert(b[b.len() - 1] != sep);
        assert(c.push(b.last()) =~= b);
        assert(split_on(a, sep).push(c).drop_last() =~= split_on(a, sep));
    }
}

/// Taking a text apart undoes putting it together.
pub proof fn law_split_undoes_join(parts: Seq<Seq<char>>, sep: char)
    requires
        parts.len() > 0,
        forall|i: int| 0 <= i < parts.len() ==> is_free_of(#[trigger] parts[i], sep),
    ensures
        split_on(joined_with(parts, seq![sep]), sep) == parts,
    decreases parts.len(),
{
    if parts.len() == 1 {
        lemma_split_free(parts[0], sep);
        assert(seq![parts[0]] =~= parts);
    } else {
        let rest = parts.drop_last();
        assert forall|i: int| 0 <= i < rest.len() implies is_free_of(#[trigger] rest[i], sep) by {
            assert(rest[i] == parts[i]);
        }
        law_split_undoes_join(rest, sep);
        assert(is_free_of(parts[parts.len() - 1], sep));
        lemma_split_last(joined_with(rest, seq![sep]), parts.last(), sep);
        assert(rest.push(parts.last()) =~= parts);
    }
}

/// Putting the parts of a text together again gives the text, and no part holds what parts them.
pub proof fn law_join_undoes_split(s: Seq<char>, sep: char)
    ensures
        joined_with(split_on(s, sep), seq![sep]) == s,
        split_on(s, sep).len() > 0,
        forall|i: int|
            0 <= i < split_on(s, sep).len() ==> is_free_of(#[trigger] split_on(s, sep)[i], sep),
    decreases s.len(),
{
    lemma_split_not_empty(s, sep);
    let parts = split_on(s, sep);
    if s.len() > 0 {
        let before = split_on(s.drop_last(), sep);
        law_join_undoes_split(s.drop_last(), sep);
        assert(s.drop_last().push(s.last()) =~= s);
        if s.last() == sep {
            assert(parts.drop_last() =~= before);
            assert(joined_with(before, seq![sep]) + seq![sep] + Seq::<char>::empty() =~= s);
        } else {
            let part = before.last().push(s.last());
            assert(is_free_of(before[before.len() - 1], sep));
            assert forall|i: int| 0 <= i < part.len() implies #[trigger] part[i] != sep by {
                if i < before.last().len() {
                    assert(part[i] == before.last()[i]);
                }
            }
            assert(parts.drop_last() =~= before.drop_last());
            if before.len() == 1 {
                assert(before.last() == before[0]);
                assert(parts =~= seq![part]);
            } else {
                assert(joined_with(before.drop_last(), seq![sep]) + seq![sep] + part =~= (
                joined_with(before.drop_last(), seq![sep]) + seq![sep] + before.last()).push(
                    s.last(),
                ));
            }
            assert forall|i: int| 0 <= i < parts.len() implies is_free_of(
                #[trigger] parts[i],
                sep,
            ) by {
                if i < parts.len() - 1 {
                    assert(parts[i] == before[i]);
                }
            }
        }
    } else {
        assert(parts[0] =~= s);
    }
}

/// Lines, each with its line break.
pub open spec fn lined(lines: Seq<Seq<char>>) -> Seq<char>
    decreases lines.len(),
{
    if lines.len() == 0 {
        Seq::empty()
    } else {
        lined(lines.drop_last()) + lines.last() + "\n"@
    }
}

/// Lines of two lists stand one behind the other.
pub proof fn lemma_lined_concat(a: Seq<Seq<char>>, b: Seq<Seq<char>>)
    ensures
        lined(a + b) == lined(a) + lined(b),
    decreases b.len(),
{
    if b.len() == 0 {
        assert(a + b =~= a);
        assert(lined(a) + lined(b) =~= lined(a));
    } else {
        assert((a + b).drop_last() =~= a + b.drop_last());
        lemma_lined_concat(a, b.drop_last());
        assert(lined(a + b) =~= lined(a) + lined(b));
    }
}

/// A single line.
pub proof fn lemma_lined_one(line: Seq<char>)
    ensures
        lined(seq![line]) == line + "\n"@,
{
    let list = seq![line];
    assert(list.drop_last() =~= Seq::<Seq<char>>::empty());
    assert(list.last() == line);
    assert(lined(list.drop_last()) =~= Seq::<char>::empty());
    assert(lined(list) == lined(list.drop_last()) + list.last() + "\n"@);
    assert(lined(list) =~= line + "\n"@);
}

/// A text that is written in lines is read in lines.
pub proof fn law_lines_read_back(lines: Seq<Seq<char>>)
    requires
        forall|i: int| 0 <= i < lines.len() ==> is_free_of(#[trigger] lines[i], '\n'),
    ensures
        split_on(lined(lines), '\n') == lines.push(Seq::empty()),
    decreases lines.len(),
{
    reveal_strlit("\n");
    let none = Seq::<char>::empty();
    if lines.len() == 0 {
        assert(lines.push(none) =~= seq![none]);
    } else {
        let rest = lines.drop_last();
        assert forall|i: int| 0 <= i < rest.len() implies is_free_of(#[trigger] rest[i], '\n') by {
            assert(rest[i] == lines[i]);
        }
        law_lines_read_back(rest);
        let all = lines.push(none);
        assert forall|i: int| 0 <= i < all.len() implies is_free_of(#[trigger] all[i], '\n') by {
            if i < lines.len() {
                assert(all[i] == lines[i]);
            }
        }
        lemma_lined_is_joined(lines);
        law_split_undoes_join(all, '\n');
    }
}

proof fn lemma_lined_is_joined(lines: Seq<Seq<char>>)
    ensures
        lined(lines) == joined_with(lines.push(Seq::empty()), seq!['\n']),
    decreases lines.len(),
{
    reveal_strlit("\n");
    let none = Seq::<char>::empty();
    let all = lines.push(none);
    if lines.len() > 0 {
        let rest = lines.drop_last();
        lemma_lined_is_joined(rest);
        assert(all.drop_last() =~= lines);
        assert("\n"@ =~= seq!['\n']);
        assert(rest.push(none).drop_last() =~= rest);
        if rest.len() > 0 {
            assert(lined(rest) =~= joined_with(rest, seq!['\n']) + seq!['\n']);
            assert(joined_with(lines, seq!['\n']) =~= lined(rest) + lines.last());
        } else {
            assert(lines =~= seq![lines.last()]);
            assert(lined(rest) + lines.last() =~= lines.last());
        }
        let sep = seq!['\n'];
        assert(all.len() >= 2 && all.last() == none);
        assert(joined_with(all, sep) == joined_with(all.drop_last(), sep) + sep + none);
        assert(joined_with(lines, sep) =~= lined(rest) + lines.last());
        assert(joined_with(all, sep) =~= lined(lines));
    }
}

/// Texts are ordered by the first character in which they differ; one that another goes on from
/// comes before it.
pub proof fn law_text_order(a: Seq<char>, b: Seq<char>)
    ensures
        text_less(a, b) == exists|k: int|
            0 <= k <= a.len() && k < b.len() && #[trigger] a.take(k) == b.take(k) && (k == a.len()
                || a[k] < b[k]),
    decreases a.len(),
{
    if b.len() == 0 {
    } else if a.len() == 0 {
        assert(a.take(0) =~= b.take(0));
    } else if a[0] != b[0] {
        assert forall|k: int| 0 <= k <= a.len() && k < b.len() && #[trigger] a.take(k) == b.take(
            k,
        ) implies k == 0 by {
            if k > 0 {
                assert(a.take(k)[0] == b.take(k)[0]);
            }
        }
        assert(a.take(0) =~= b.take(0));
    } else {
        let (x, y) = (a.drop_first(), b.drop_first());
        law_text_order(x, y);
        if text_less(x, y) {
            let k = choose|k: int|
                0 <= k <= x.len() && k < y.len() && #[trigger] x.take(k) == y.take(k) && (k
                    == x.len() || x[k] < y[k]);
            assert(a.take(k + 1) =~= seq![a[0]] + x.take(k));
            assert(b.take(k + 1) =~= seq![b[0]] + y.take(k));
            assert(a.take(k + 1) == b.take(k + 1));
        }
        if exists|k: int|
            0 <= k <= a.len() && k < b.len() && #[trigger] a.take(k) == b.take(k) && (k == a.len()
                || a[k] < b[k]) {
            let k = choose|k: int|
                0 <= k <= a.len() && k < b.len() && #[trigger] a.take(k) == b.take(k) && (k
                    == a.len() || a[k] < b[k]);
            assert(k > 0);
            assert(x.take(k - 1) =~= a.take(k).drop_first());
            assert(y.take(k - 1) =~= b.take(k).drop_first());
            assert(x.take(k - 1) == y.take(k - 1));
        }
    }
}

} // verus!
