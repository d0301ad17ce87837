//! Text primitives: decimal and hexadecimal rendering, number parsing,
//! trimming and splitting, all stated over sequences of characters.

use vstd::prelude::*;

verus! {

/// `String::push` appends one character to the end of the string.
pub assume_specification[ String::push ](s: &mut String, c: char)
    ensures
        final(s)@ == old(s)@.push(c),
;

// ---------------------------------------------------------------------------
// Conversions between `str`, `String` and characters
// ---------------------------------------------------------------------------

/// The characters of a string, in order.
pub fn chars_of(s: &str) -> (out: Vec<char>)
    ensures
        out@ == s@,
{
    let mut out: Vec<char> = Vec::new();
    for c in it: s.chars()
        invariant
            out@ == it.seq().take(it.index() as int),
            it.seq() == s@,
    {
        out.push(c);
    }
    out
}

/// The string made of `chars[from..to]`.
pub fn string_of(chars: &Vec<char>, from: usize, to: usize) -> (out: String)
    requires
        from <= to <= chars@.len(),
    ensures
        out@ == chars@.subrange(from as int, to as int),
{
    let mut out = String::new();
    let mut i: usize = from;
    while i < to
        invariant
            from <= i <= to <= chars@.len(),
            out@ == chars@.subrange(from as int, i as int),
        decreases to - i,
    {
        out.push(chars[i]);
        i += 1;
    }
    out
}

/// Whether two strings hold the same characters.
pub fn same(a: &str, b: &str) -> (r: bool)
    ensures
        r == (a@ == b@),
{
    let x: String = a.to_owned();
    let y: String = b.to_owned();
    x == y
}

// ---------------------------------------------------------------------------
// Rendering numbers
// ---------------------------------------------------------------------------

/// Texts as characters.
pub open spec fn texts(v: Seq<String>) -> Seq<Seq<char>> {
    v.map_values(|s: String| s@)
}

/// The character of a digit below sixteen, in lower case.
pub open spec fn digit_char(d: nat) -> char {
    if d < 10 {
        (('0' as nat) + d) as char
    } else {
        (('a' as nat) + (d - 10)) as char
    }
}

/// The digits of `n` in the given base, without leading zeros.
pub open spec fn digits(n: nat, base: nat) -> Seq<char>
    decreases n,
{
    if base < 2 || n < base {
        seq![digit_char(n)]
    } else {
        proof {
            assert(n / base < n) by (nonlinear_arith)
                requires
                    n >= base,
                    base >= 2,
            ;
        }
        digits(n / base, base).push(digit_char(n % base))
    }
}

/// The value of a hexadecimal or decimal digit.
pub open spec fn digit_value(c: char) -> int {
    if '0' <= c <= '9' {
        c as int - '0' as int
    } else {
        c as int - 'a' as int + 10
    }
}

/// The number that a run of digits in a base stands for.
pub open spec fn number(s: Seq<char>, base: nat) -> int
    decreases s.len(),
{
    if s.len() == 0 {
        0
    } else {
        number(s.drop_last(), base) * base + digit_value(s.last())
    }
}

/// The digits of a number stand for that number, there is at least one, and
/// all of them are digits.
pub proof fn lemma_digits(n: nat, base: nat)
    requires
        2 <= base <= 16,
    ensures
        number(digits(n, base), base) == n,
        digits(n, base).len() > 0,
        forall|i: int|
            0 <= i < digits(n, base).len() ==> {
                ||| '0' <= #[trigger] digits(n, base)[i] <= '9'
                ||| 'a' <= digits(n, base)[i] <= 'f'
            },
        !digits(n, base).contains('.'),
        !digits(n, base).contains(':'),
    decreases n,
{
    let s = digits(n, base);
    if n < base {
        assert(s.drop_last() =~= seq![]);
        assert(number(s.drop_last(), base) == 0);
        assert(0 * base == 0);
    } else {
        assert(n / base < n) by (nonlinear_arith)
            requires
                n >= base,
                base >= 2,
        ;
        lemma_digits(n / base, base);
        assert(s.drop_last() =~= digits(n / base, base));
        assert((n / base) * base + n % base == n) by (nonlinear_arith)
            requires
                base >= 2,
        ;
        assert(n % base < 16) by (nonlinear_arith)
            requires
                2 <= base <= 16,
        ;
        assert forall|i: int| 0 <= i < s.len() implies {
            ||| '0' <= #[trigger] s[i] <= '9'
            ||| 'a' <= s[i] <= 'f'
        } by {
            if i < s.len() - 1 {
                assert(s[i] == digits(n / base, base)[i]);
            }
        }
    }
    assert(!s.contains('.'));
    assert(!s.contains(':'));
}

/// A field that ends at the first separator is determined by the text, and so
/// is what follows.
pub proof fn lemma_first_field(x: Seq<char>, y: Seq<char>, c: char, rx: Seq<char>, ry: Seq<char>)
    requires
        !x.contains(c),
        !y.contains(c),
        x + seq![c] + rx == y + seq![c] + ry,
    ensures
        x == y,
        rx == ry,
{
    let s = x + seq![c] + rx;
    let t = y + seq![c] + ry;
    if x.len() < y.len() {
        assert(s[x.len() as int] == c);
        assert(t[x.len() as int] == y[x.len() as int]);
        assert(y.contains(c));
    }
    if y.len() < x.len() {
        assert(t[y.len() as int] == c);
        assert(s[y.len() as int] == x[y.len() as int]);
        assert(x.contains(c));
    }
    assert(x =~= s.take(x.len() as int));
    assert(y =~= t.take(x.len() as int));
    assert(rx =~= s.skip(x.len() as int + 1));
    assert(ry =~= t.skip(x.len() as int + 1));
}

/// `n` in decimal, as `{}` renders an unsigned integer.
pub open spec fn decimal(n: nat) -> Seq<char> {
    digits(n, 10)
}

/// `n` in lower-case hexadecimal, as `{:x}` renders an unsigned integer.
pub open spec fn hexadecimal(n: nat) -> Seq<char> {
    digits(n, 16)
}

fn digit_of(d: u64) -> (c: char)
    requires
        d < 16,
    ensures
        c == digit_char(d as nat),
{
    if d == 0 { '0' }
    else if d == 1 { '1' }
    else if d == 2 { '2' }
    else if d == 3 { '3' }
    else if d == 4 { '4' }
    else if d == 5 { '5' }
    else if d == 6 { '6' }
    else if d == 7 { '7' }
    else if d == 8 { '8' }
    else if d == 9 { '9' }
    else if d == 10 { 'a' }
    else if d == 11 { 'b' }
    else if d == 12 { 'c' }
    else if d == 13 { 'd' }
    else if d == 14 { 'e' }
    else { 'f' }
}

fn push_digits(out: &mut String, n: u64, base: u64)
    requires
        2 <= base <= 16,
    ensures
        final(out)@ == old(out)@ + digits(n as nat, base as nat),
    decreases n,
{
    if n < base {
        out.push(digit_of(n));
        assert(out@ =~= old(out)@ + digits(n as nat, base as nat));
    } else {
        assert(n / base < n) by (nonlinear_arith)
            requires
                n >= base,
                base >= 2,
        ;
        push_digits(out, n / base, base);
        let ghost before = out@;
        out.push(digit_of(n % base));
        assert(out@ =~= old(out)@ + digits(n as nat, base as nat)) by {
            assert(before == old(out)@ + digits((n / base) as nat, base as nat));
        }
    }
}

/// Appends `n` in decimal.
pub fn push_decimal(out: &mut String, n: u64)
    ensures
        final(out)@ == old(out)@ + decimal(n as nat),
{
    push_digits(out, n, 10)
}

/// `n` in decimal.
pub fn decimal_string(n: u64) -> (out: String)
    ensures
        out@ == decimal(n as nat),
{
    let mut out = String::new();
    push_decimal(&mut out, n);
    assert(Seq::<char>::empty() + decimal(n as nat) =~= decimal(n as nat));
    out
}

/// Appends `n` in lower-case hexadecimal.
pub fn push_hexadecimal(out: &mut String, n: u64)
    ensures
        final(out)@ == old(out)@ + hexadecimal(n as nat),
{
    push_digits(out, n, 16)
}

/// One byte as two lower-case hexadecimal digits.
pub open spec fn hex_byte(b: u8) -> Seq<char> {
    seq![digit_char((b / 16) as nat), digit_char((b % 16) as nat)]
}

/// A byte string as two lower-case hexadecimal digits per byte.
pub open spec fn hex_bytes(bytes: Seq<u8>) -> Seq<char>
    decreases bytes.len(),
{
    if bytes.len() == 0 {
        seq![]
    } else {
        hex_bytes(bytes.drop_last()) + hex_byte(bytes.last())
    }
}

/// Renders a byte string as two lower-case hexadecimal digits per byte.
pub fn hex_string(bytes: &[u8]) -> (out: String)
    ensures
        out@ == hex_bytes(bytes@),
{
    let mut out = String::new();
    let mut i: usize = 0;
    while i < bytes.len()
        invariant
            i <= bytes@.len(),
            out@ == hex_bytes(bytes@.take(i as int)),
        decreases bytes@.len() - i,
    {
        let b: u8 = bytes[i];
        out.push(digit_of((b / 16) as u64));
        out.push(digit_of((b % 16) as u64));
        proof {
            let next = bytes@.take(i + 1);
            assert(next.drop_last() =~= bytes@.take(i as int));
            assert(out@ =~= hex_bytes(next));
        }
        i += 1;
    }
    assert(bytes@.take(bytes@.len() as int) =~= bytes@);
    out
}

// ---------------------------------------------------------------------------
// Reading numbers
// ---------------------------------------------------------------------------

/// Whether `c` is an ASCII decimal digit.
pub open spec fn is_digit(c: char) -> bool {
    '0' <= c <= '9'
}

/// The number that a run of decimal digits stands for.
pub open spec fn digits_value(s: Seq<char>) -> nat
    decreases s.len(),
{
    if s.len() == 0 {
        0
    } else {
        digits_value(s.drop_last()) * 10 + (s.last() as nat - '0' as nat) as nat
    }
}

/// The digits of an unsigned literal: what follows an optional leading `+`.
pub open spec fn unsigned_body(s: Seq<char>) -> Seq<char> {
    if s.len() > 0 && s[0] == '+' {
        s.skip(1)
    } else {
        s
    }
}

/// What an unsigned integer type with largest value `max` reads from `s`: an
/// optional `+`, then one or more decimal digits whose value fits.
pub open spec fn unsigned_value(s: Seq<char>, max: nat) -> Option<nat> {
    let body = unsigned_body(s);
    if body.len() > 0 && (forall|i: int| 0 <= i < body.len() ==> is_digit(#[trigger] body[i]))
        && digits_value(body) <= max {
        Some(digits_value(body))
    } else {
        None
    }
}

/// Further digits never make a number smaller.
pub proof fn lemma_digits_value_grows(s: Seq<char>, k: int)
    requires
        0 <= k <= s.len(),
    ensures
        digits_value(s.take(k)) <= digits_value(s),
    decreases s.len() - k,
{
    if k < s.len() {
        lemma_digits_value_grows(s, k + 1);
        assert(s.take(k + 1).drop_last() =~= s.take(k));
    } else {
        assert(s.take(k) =~= s);
    }
}

/// The decimal rendering of a number reads back as the number.
pub proof fn lemma_decimal_parses(n: nat, max: nat)
    requires
        n <= max,
    ensures
        unsigned_value(decimal(n), max) == Some(n),
{
    lemma_decimal_value(n);
    let s = decimal(n);
    assert(s[0] != '+');
    assert(unsigned_body(s) == s);
}

proof fn lemma_decimal_value(n: nat)
    ensures
        digits_value(decimal(n)) == n,
        decimal(n).len() > 0,
        forall|i: int| 0 <= i < decimal(n).len() ==> is_digit(#[trigger] decimal(n)[i]),
    decreases n,
{
    let s = decimal(n);
    if n < 10 {
        assert(s.drop_last() =~= seq![]);
        assert(digits_value(s.drop_last()) == 0);
    } else {
        lemma_decimal_value(n / 10);
        assert(s.drop_last() =~= decimal(n / 10));
        assert forall|i: int| 0 <= i < s.len() implies is_digit(#[trigger] s[i]) by {
            if i < s.len() - 1 {
                assert(s[i] == decimal(n / 10)[i]);
            }
        }
    }
}

/// Reads an unsigned integer no larger than `max`.
pub fn parse_unsigned(text: &str, max: u64) -> (r: Option<u64>)
    ensures
        match r {
            Some(v) => unsigned_value(text@, max as nat) == Some(v as nat),
            None => unsigned_value(text@, max as nat) is None,
        },
{
    let chars = chars_of(text);
    let start: usize = if chars.len() > 0 && chars[0] == '+' { 1 } else { 0 };
    let ghost body = unsigned_body(text@);
    assert(body =~= chars@.skip(start as int));
    if start == chars.len() {
        return None;
    }
    let mut i: usize = start;
    let mut acc: u64 = 0;
    while i < chars.len()
        invariant
            start <= i <= chars@.len(),
            start < chars@.len(),
            body == chars@.skip(start as int),
            body == unsigned_body(text@),
            forall|j: int| 0 <= j < i - start ==> is_digit(#[trigger] body[j]),
            acc == digits_value(body.take(i - start)),
            acc <= max,
        decreases chars@.len() - i,
    {
        let c: char = chars[i];
        assert(c == body[i - start]);
        if c < '0' || c > '9' {
            return None;
        }
        let d: u64 = (c as u32 - '0' as u32) as u64;
        assert(body.take(i - start + 1).drop_last() =~= body.take(i - start));
        assert(digits_value(body.take(i - start + 1)) == acc * 10 + d);
        if acc > max / 10 || (acc == max / 10 && d > max % 10) {
            proof {
                lemma_digits_value_grows(body, i - start + 1);
            }
            return None;
        }
        acc = acc * 10 + d;
        i += 1;
    }
    assert(body.take(body.len() as int) =~= body);
    Some(acc)
}

// ---------------------------------------------------------------------------
// White space
// ---------------------------------------------------------------------------

/// The characters with the Unicode `White_Space` property.
pub open spec fn is_space(c: char) -> bool {
    ||| '\u{9}' <= c <= '\u{d}'
    ||| c == ' '
    ||| c == '\u{85}'
    ||| c == '\u{a0}'
    ||| c == '\u{1680}'
    ||| '\u{2000}' <= c <= '\u{200a}'
    ||| c == '\u{2028}'
    ||| c == '\u{2029}'
    ||| c == '\u{202f}'
    ||| c == '\u{205f}'
    ||| c == '\u{3000}'
}

/// Whether `c` has the Unicode `White_Space` property.
pub fn space(c: char) -> (r: bool)
    ensures
        r == is_space(c),
{
    ('\u{9}' <= c && c <= '\u{d}') || c == ' ' || c == '\u{85}' || c == '\u{a0}' || c == '\u{1680}'
        || ('\u{2000}' <= c && c <= '\u{200a}') || c == '\u{2028}' || c == '\u{2029}' || c
        == '\u{202f}' || c == '\u{205f}' || c == '\u{3000}'
}

/// `s` without its leading white space.
pub open spec fn trim_start(s: Seq<char>) -> Seq<char>
    decreases s.len(),
{
    if s.len() > 0 && is_space(s[0]) {
        trim_start(s.skip(1))
    } else {
        s
    }
}

/// `s` without its trailing white space.
pub open spec fn trim_end(s: Seq<char>) -> Seq<char>
    decreases s.len(),
{
    if s.len() > 0 && is_space(s.last()) {
        trim_end(s.drop_last())
    } else {
        s
    }
}

/// `s` without white space at either end.
pub open spec fn trim(s: Seq<char>) -> Seq<char> {
    trim_end(trim_start(s))
}

/// The first position in `chars[from..to]` that is not white space, or `to`.
pub fn skip_spaces(chars: &Vec<char>, from: usize, to: usize) -> (i: usize)
    requires
        from <= to <= chars@.len(),
    ensures
        from <= i <= to,
        chars@.subrange(i as int, to as int) == trim_start(chars@.subrange(from as int, to as int)),
        i < to ==> !is_space(chars@[i as int]),
{
    let mut i: usize = from;
    while i < to && space(chars[i])
        invariant
            from <= i <= to <= chars@.len(),
            trim_start(chars@.subrange(i as int, to as int)) == trim_start(
                chars@.subrange(from as int, to as int),
            ),
        decreases to - i,
    {
        assert(chars@.subrange(i as int, to as int).skip(1) =~= chars@.subrange(i + 1, to as int));
        i += 1;
    }
    i
}

/// The end of `chars[from..to]` once trailing white space is dropped.
pub fn drop_spaces(chars: &Vec<char>, from: usize, to: usize) -> (j: usize)
    requires
        from <= to <= chars@.len(),
    ensures
        from <= j <= to,
        chars@.subrange(from as int, j as int) == trim_end(chars@.subrange(from as int, to as int)),
{
    let mut j: usize = to;
    while from < j && space(chars[j - 1])
        invariant
            from <= j <= to <= chars@.len(),
            trim_end(chars@.subrange(from as int, j as int)) == trim_end(
                chars@.subrange(from as int, to as int),
            ),
        decreases j,
    {
        assert(chars@.subrange(from as int, j as int).drop_last() =~= chars@.subrange(
            from as int,
            j - 1,
        ));
        j -= 1;
    }
    j
}

/// The text without white space at either end.
pub fn trimmed(text: &str) -> (out: String)
    ensures
        out@ == trim(text@),
{
    let chars = chars_of(text);
    let i = skip_spaces(&chars, 0, chars.len());
    let j = drop_spaces(&chars, i, chars.len());
    assert(chars@.subrange(0, chars@.len() as int) =~= text@);
    string_of(&chars, i, j)
}

/// The run of characters before the first white space.
pub open spec fn word(s: Seq<char>) -> Seq<char>
    decreases s.len(),
{
    if s.len() > 0 && !is_space(s[0]) {
        seq![s[0]] + word(s.skip(1))
    } else {
        seq![]
    }
}

/// The words of `s`: its maximal runs of characters that are not white space.
pub open spec fn words(s: Seq<char>) -> Seq<Seq<char>>
    decreases s.len(),
{
    let t = trim_start(s);
    if t.len() == 0 {
        seq![]
    } else {
        proof {
            lemma_trim_start_len(s);
            lemma_word_len(t);
        }
        seq![word(t)] + words(t.skip(word(t).len() as int))
    }
}

/// Dropping white space never lengthens a text and leaves no leading space.
pub proof fn lemma_trim_start_len(s: Seq<char>)
    ensures
        trim_start(s).len() <= s.len(),
        trim_start(s).len() > 0 ==> !is_space(trim_start(s)[0]),
    decreases s.len(),
{
    if s.len() > 0 && is_space(s[0]) {
        lemma_trim_start_len(s.skip(1));
    }
}

/// The first word is a prefix of the text.
pub proof fn lemma_word_len(s: Seq<char>)
    ensures
        word(s).len() <= s.len(),
        s.len() > 0 && !is_space(s[0]) ==> word(s).len() > 0,
    decreases s.len(),
{
    if s.len() > 0 && !is_space(s[0]) {
        lemma_word_len(s.skip(1));
    }
}

/// The end of the word that starts at `from` in `chars[..to]`.
fn word_end(chars: &Vec<char>, from: usize, to: usize) -> (i: usize)
    requires
        from <= to <= chars@.len(),
    ensures
        from <= i <= to,
        chars@.subrange(from as int, i as int) == word(chars@.subrange(from as int, to as int)),
{
    let mut i: usize = from;
    let ghost whole = chars@.subrange(from as int, to as int);
    while i < to && !space(chars[i])
        invariant
            from <= i <= to <= chars@.len(),
            whole == chars@.subrange(from as int, to as int),
            word(whole) == chars@.subrange(from as int, i as int) + word(
                chars@.subrange(i as int, to as int),
            ),
        decreases to - i,
    {
        proof {
            let rest = chars@.subrange(i as int, to as int);
            assert(rest.skip(1) =~= chars@.subrange(i + 1, to as int));
            assert(chars@.subrange(from as int, i as int) + (seq![rest[0]] + word(rest.skip(1)))
                =~= chars@.subrange(from as int, i + 1) + word(rest.skip(1)));
        }
        i += 1;
    }
    assert(chars@.subrange(from as int, i as int) =~= word(whole));
    i
}

/// The words of a text.
pub fn words_of(text: &str) -> (out: Vec<String>)
    ensures
        texts(out@) == words(text@),
{
    let chars = chars_of(text);
    let n: usize = chars.len();
    let mut out: Vec<String> = Vec::new();
    let mut at: usize = 0;
    assert(chars@.subrange(0, n as int) =~= text@);
    assert(texts(out@) =~= seq![]);
    assert(seq![] + words(text@) =~= words(text@));
    while at < n
        invariant
            at <= n == chars@.len(),
            words(text@) == texts(out@) + words(
                chars@.subrange(at as int, n as int),
            ),
        decreases n - at,
    {
        let ghost rest = chars@.subrange(at as int, n as int);
        let from = skip_spaces(&chars, at, n);
        let to = word_end(&chars, from, n);
        let ghost t = trim_start(rest);
        proof {
            lemma_word_len(t);
        }
        if from == n {
            assert(words(rest) =~= seq![]);
            assert(texts(out@) + seq![] =~= texts(out@));
            return out;
        }
        let w = string_of(&chars, from, to);
        let ghost before = texts(out@);
        out.push(w);
        proof {
            assert(t.skip(word(t).len() as int) =~= chars@.subrange(to as int, n as int));
            assert(texts(out@) =~= before + seq![word(t)]);
            assert(before + (seq![word(t)] + words(chars@.subrange(to as int, n as int)))
                =~= (before + seq![word(t)]) + words(chars@.subrange(to as int, n as int)));
        }
        at = to;
    }
    proof {
        let rest = chars@.subrange(at as int, n as int);
        assert(rest =~= seq![]);
        assert(words(rest) =~= seq![]);
        assert(texts(out@) + seq![] =~= texts(out@));
    }
    out
}

// ---------------------------------------------------------------------------
// Splitting
// ---------------------------------------------------------------------------

/// The first position of `c` in `s`, or the length of `s`.
pub open spec fn find(s: Seq<char>, c: char) -> nat
    decreases s.len(),
{
    if s.len() == 0 || s[0] == c {
        0
    } else {
        1 + find(s.skip(1), c)
    }
}

/// `find` stays within the text, points at the character, and skips none.
pub proof fn lemma_find(s: Seq<char>, c: char)
    ensures
        find(s, c) <= s.len(),
        find(s, c) < s.len() ==> s[find(s, c) as int] == c,
        forall|i: int| 0 <= i < find(s, c) ==> #[trigger] s[i] != c,
    decreases s.len(),
{
    if s.len() > 0 && s[0] != c {
        lemma_find(s.skip(1), c);
        assert forall|i: int| 0 <= i < find(s, c) implies #[trigger] s[i] != c by {
            if i > 0 {
                assert(s.skip(1)[i - 1] == s[i]);
            }
        }
    }
}

/// The position of `c` in `chars[from..to]`, or `to`.
pub fn position(chars: &Vec<char>, from: usize, to: usize, c: char) -> (i: usize)
    requires
        from <= to <= chars@.len(),
    ensures
        from <= i <= to,
        i - from == find(chars@.subrange(from as int, to as int), c),
        i < to ==> chars@[i as int] == c,
{
    let mut i: usize = from;
    while i < to && chars[i] != c
        invariant
            from <= i <= to <= chars@.len(),
            find(chars@.subrange(from as int, to as int), c) == (i - from) + find(
                chars@.subrange(i as int, to as int),
                c,
            ),
        decreases to - i,
    {
        assert(chars@.subrange(i as int, to as int).skip(1) =~= chars@.subrange(i + 1, to as int));
        i += 1;
    }
    i
}

/// What stands before and after the first `c`, when there is one.
pub open spec fn split_once(s: Seq<char>, c: char) -> Option<(Seq<char>, Seq<char>)> {
    let k = find(s, c) as int;
    if k < s.len() {
        Some((s.take(k), s.skip(k + 1)))
    } else {
        None
    }
}

/// Splits a text at the first `c`.
pub fn split_at_first(text: &str, c: char) -> (r: Option<(String, String)>)
    ensures
        match r {
            Some(p) => split_once(text@, c) == Some((p.0@, p.1@)),
            None => split_once(text@, c) is None,
        },
{
    let chars = chars_of(text);
    let k = position(&chars, 0, chars.len(), c);
    assert(chars@.subrange(0, chars@.len() as int) =~= text@);
    if k < chars.len() {
        let a = string_of(&chars, 0, k);
        let b = string_of(&chars, k + 1, chars.len());
        assert(a@ =~= text@.take(k as int));
        assert(b@ =~= text@.skip(k + 1));
        Some((a, b))
    } else {
        None
    }
}

/// The pieces of `s` between the separators `c`; one more than there are
/// separators.
pub open spec fn split(s: Seq<char>, c: char) -> Seq<Seq<char>>
    decreases s.len(),
{
    let k = find(s, c) as int;
    if k < s.len() {
        seq![s.take(k)] + split(s.skip(k + 1), c)
    } else {
        seq![s]
    }
}

/// The pieces of a text between the separators `c`.
pub fn split_on(text: &str, c: char) -> (out: Vec<String>)
    ensures
        texts(out@) == split(text@, c),
{
    let chars = chars_of(text);
    let n: usize = chars.len();
    let mut out: Vec<String> = Vec::new();
    let mut at: usize = 0;
    assert(chars@.subrange(0, n as int) =~= text@);
    assert(texts(out@) =~= seq![]);
    assert(seq![] + split(text@, c) =~= split(text@, c));
    loop
        invariant
            at <= n == chars@.len(),
            split(text@, c) == texts(out@) + split(
                chars@.subrange(at as int, n as int),
                c,
            ),
        decreases n - at,
    {
        let ghost rest = chars@.subrange(at as int, n as int);
        let ghost before = texts(out@);
        let k = position(&chars, at, n, c);
        let piece = string_of(&chars, at, k);
        out.push(piece);
        if k == n {
            proof {
                assert(piece@ == rest);
                assert(texts(out@) =~= before + seq![rest]);
            }
            return out;
        }
        proof {
            assert(rest.take(k - at) =~= chars@.subrange(at as int, k as int));
            assert(rest.skip(k - at + 1) =~= chars@.subrange(k + 1, n as int));
            let tail = split(chars@.subrange(k + 1, n as int), c);
            assert(texts(out@) =~= before + seq![rest.take(k - at)]);
            assert(before + (seq![rest.take(k - at)] + tail) =~= (before + seq![rest.take(k - at)])
                + tail);
        }
        at = k + 1;
    }
}

/// A line without the carriage return at its end, if it has one.
pub open spec fn chomp(s: Seq<char>) -> Seq<char> {
    if s.len() > 0 && s.last() == '\r' {
        s.drop_last()
    } else {
        s
    }
}

/// The lines of `s`: the pieces that a line feed ends, and what follows the
/// last one if that is not empty, each without a carriage return before the
/// line feed.
pub open spec fn lines(s: Seq<char>) -> Seq<Seq<char>>
    decreases s.len(),
{
    let k = find(s, '\n') as int;
    if s.len() == 0 {
        seq![]
    } else if k < s.len() {
        seq![chomp(s.take(k))] + lines(s.skip(k + 1))
    } else {
        seq![s]
    }
}

/// The lines of a text.
pub fn lines_of(text: &str) -> (out: Vec<String>)
    ensures
        texts(out@) == lines(text@),
{
    let chars = chars_of(text);
    let n: usize = chars.len();
    let mut out: Vec<String> = Vec::new();
    let mut at: usize = 0;
    assert(chars@.subrange(0, n as int) =~= text@);
    assert(texts(out@) =~= seq![]);
    assert(seq![] + lines(text@) =~= lines(text@));
    while at < n
        invariant
            at <= n == chars@.len(),
            lines(text@) == texts(out@) + lines(
                chars@.subrange(at as int, n as int),
            ),
        decreases n - at,
    {
        let ghost rest = chars@.subrange(at as int, n as int);
        let ghost before = texts(out@);
        let k = position(&chars, at, n, '\n');
        let end: usize = if k < n && at < k && chars[k - 1] == '\r' { k - 1 } else { k };
        let line = string_of(&chars, at, end);
        out.push(line);
        if k == n {
            proof {
                assert(line@ == rest);
                assert(texts(out@) =~= before + seq![rest]);
            }
            return out;
        }
        proof {
            assert(rest.take(k - at) =~= chars@.subrange(at as int, k as int));
            assert(line@ =~= chomp(rest.take(k - at)));
            assert(rest.skip(k - at + 1) =~= chars@.subrange(k + 1, n as int));
            let tail = lines(chars@.subrange(k + 1, n as int));
            assert(texts(out@) =~= before + seq![chomp(rest.take(k - at))]);
            assert(before + (seq![chomp(rest.take(k - at))] + tail) =~= (before + seq![
                chomp(rest.take(k - at)),
            ]) + tail);
        }
        at = k + 1;
    }
    proof {
        let rest = chars@.subrange(at as int, n as int);
        assert(rest =~= seq![]);
        assert(lines(rest) =~= seq![]);
        assert(texts(out@) + seq![] =~= texts(out@));
    }
    out
}

/// The two digits of a byte stand at twice its position.
pub proof fn lemma_hex_at(bytes: Seq<u8>, i: int)
    requires
        0 <= i < bytes.len(),
    ensures
        hex_bytes(bytes).len() == 2 * bytes.len(),
        hex_bytes(bytes)[2 * i] == digit_char((bytes[i] / 16) as nat),
        hex_bytes(bytes)[2 * i + 1] == digit_char((bytes[i] % 16) as nat),
    decreases bytes.len(),
{
    let init = bytes.drop_last();
    if init.len() == 0 {
        assert(hex_bytes(init) =~= seq![]);
    } else if i < init.len() {
        lemma_hex_at(init, i);
    } else {
        lemma_hex_at(init, 0);
    }
}

// ---------------------------------------------------------------------------
// Laws
// ---------------------------------------------------------------------------

/// A number below ten is one digit, and any other is written as its tenth,
/// followed by the digit that is left over.
pub proof fn law_decimal_is_positional(n: u64, whole: String, tenth: String)
    requires
        call_ensures(decimal_string, (n,), whole),
        call_ensures(decimal_string, ((n / 10) as u64,), tenth),
    ensures
        n < 10 ==> whole@ == seq![((0x30 + n) as u8) as char],
        n >= 10 ==> whole@ == tenth@ + seq![((0x30 + n % 10) as u8) as char],
{
    let d: nat = n as nat % 10;
    assert((('0' as nat) + d) as char == ((0x30 + d) as u8) as char);
    if n >= 10 {
        assert(whole@ =~= tenth@ + seq![((0x30 + n % 10) as u8) as char]);
    } else {
        assert(d == n);
    }
}

/// Which texts are numbers: a digit is, a number followed by a digit is ten times
/// the number and the digit as long as it is not too large, and nothing else: not
/// the empty text, not a sign alone, not a text with another character in it. A
/// leading plus changes nothing.
pub proof fn law_numbers_are_read(
    text: &str,
    max: u64,
    r: Option<u64>,
    more: &str,
    d: char,
    s: Option<u64>,
)
    requires
        call_ensures(parse_unsigned, (text, max), r),
        call_ensures(parse_unsigned, (more, max), s),
        more@ == text@.push(d),
    ensures
        text@.len() == 0 || text@ == seq!['+'] ==> r is None,
        !(0x30 <= d as u32 <= 0x39) ==> s is None,
        0x30 <= d as u32 <= 0x39 && (text@.len() == 0 || text@ == seq!['+']) ==> s == if d as u32
            - 0x30 <= max {
            Some((d as u32 - 0x30) as u64)
        } else {
            None
        },
        0x30 <= d as u32 <= 0x39 && r is Some ==> s == if r->0 * 10 + (d as u32 - 0x30) <= max {
            Some((r->0 * 10 + (d as u32 - 0x30)) as u64)
        } else {
            None
        },
        text@.len() > 0 && text@ != seq!['+'] && r is None ==> s is None,
{
    let a = unsigned_body(text@);
    let b = unsigned_body(more@);
    if text@.len() == 0 {
        assert(more@ =~= seq![d]);
        if d == '+' {
            assert(b.len() == 0);
        } else {
            assert(b.drop_last() =~= Seq::<char>::empty());
            assert(digits_value(b.drop_last()) == 0);
            assert(b[0] == d);
        }
    } else {
        assert(more@[0] == text@[0]);
        assert(b =~= a.push(d));
        assert(b.drop_last() =~= a);
        assert(b[b.len() - 1] == d);
        if text@ == seq!['+'] {
            assert(a.len() == 0);
            assert(digits_value(a) == 0);
        } else {
            if a.len() == 0 {
                assert(text@ =~= seq!['+']);
            }
        }
        assert forall|i: int| 0 <= i < a.len() implies a[i] == b[i] by {}
        if r is None && a.len() > 0 && (forall|i: int| 0 <= i < b.len() ==> is_digit(#[trigger] b[i])) {
            assert forall|i: int| 0 <= i < a.len() implies is_digit(#[trigger] a[i]) by {
                assert(is_digit(b[i]));
            }
            assert(digits_value(b) >= digits_value(a));
        }
        if r is Some {
            assert forall|i: int| 0 <= i < b.len() && 0x30 <= d as u32 <= 0x39 implies is_digit(
                #[trigger] b[i],
            ) by {
                if i < a.len() {
                    assert(is_digit(a[i]));
                }
            }
        }
    }
}

/// Which characters are white space.
pub proof fn law_white_space(c: char, r: bool)
    requires
        call_ensures(space, (c,), r),
    ensures
        r <==> {
            let u = c as u32;
            ||| 9 <= u <= 13
            ||| u == 32
            ||| u == 0x85
            ||| u == 0xa0
            ||| u == 0x1680
            ||| 0x2000 <= u <= 0x200a
            ||| u == 0x2028
            ||| u == 0x2029
            ||| u == 0x202f
            ||| u == 0x205f
            ||| u == 0x3000
        },
{
}

/// Whether a text is nothing but white space.
pub open spec fn is_blank(s: Seq<char>) -> bool {
    forall|i: int| 0 <= i < s.len() ==> is_space(#[trigger] s[i])
}

/// What is left of a text without the white space around it: a part of it, with
/// nothing but white space before and behind, which neither starts nor ends with
/// any.
pub proof fn law_trimmed(text: &str, out: String)
    requires
        call_ensures(trimmed, (text,), out),
    ensures
        exists|a: Seq<char>, b: Seq<char>|
            #![trigger is_blank(a), is_blank(b)]
            is_blank(a) && is_blank(b) && text@ == a + out@ + b,
        out@.len() > 0 ==> !is_space(out@[0]) && !is_space(out@.last()),
{
    let mid = trim_start(text@);
    lemma_trim_start(text@);
    lemma_trim_end(mid);
    let a = text@.take(text@.len() - mid.len());
    let b = mid.skip(out@.len() as int);
    assert(is_blank(a) && is_blank(b));
    assert(text@ =~= a + mid);
    assert(mid =~= out@ + b);
    assert(text@ =~= a + out@ + b);
}

proof fn lemma_trim_start(s: Seq<char>)
    ensures
        trim_start(s).len() <= s.len(),
        trim_start(s) == s.skip(s.len() - trim_start(s).len()),
        is_blank(s.take(s.len() - trim_start(s).len())),
        trim_start(s).len() > 0 ==> !is_space(trim_start(s)[0]),
    decreases s.len(),
{
    if s.len() > 0 && is_space(s[0]) {
        let t = s.skip(1);
        lemma_trim_start(t);
        let k = s.len() - trim_start(s).len();
        assert(t.skip(k - 1) =~= s.skip(k));
        assert forall|i: int| 0 <= i < s.take(k).len() implies is_space(#[trigger] s.take(k)[i]) by {
            if i > 0 {
                assert(t.take(k - 1)[i - 1] == s[i]);
            }
        }
    } else {
        assert(s.skip(0) =~= s);
    }
}

proof fn lemma_trim_end(s: Seq<char>)
    ensures
        trim_end(s).len() <= s.len(),
        trim_end(s) == s.take(trim_end(s).len() as int),
        is_blank(s.skip(trim_end(s).len() as int)),
        trim_end(s).len() > 0 ==> !is_space(trim_end(s).last()) && trim_end(s)[0] == s[0],
    decreases s.len(),
{
    if s.len() > 0 && is_space(s.last()) {
        let t = s.drop_last();
        lemma_trim_end(t);
        let k = trim_end(s).len() as int;
        assert(t.take(k) =~= s.take(k));
        assert forall|i: int| 0 <= i < s.skip(k).len() implies is_space(#[trigger] s.skip(k)[i]) by {
            if i < s.skip(k).len() - 1 {
                assert(t.skip(k)[i] == s[k + i]);
            }
        }
    } else {
        assert(s.take(s.len() as int) =~= s);
    }
}

/// How a text splits into words: none in a blank text, the whole text where it
/// has no white space, and at any white space the words before it, followed by
/// the words behind it.
pub proof fn law_words(
    a: &str,
    c: char,
    b: &str,
    whole: &str,
    x: Vec<String>,
    y: Vec<String>,
    z: Vec<String>,
)
    requires
        call_ensures(words_of, (a,), x),
        call_ensures(words_of, (b,), y),
        call_ensures(words_of, (whole,), z),
        is_space(c),
        whole@ == a@ + seq![c] + b@,
    ensures
        a@.len() == 0 ==> x@.len() == 0,
        a@.len() > 0 && (forall|i: int| 0 <= i < a@.len() ==> !is_space(#[trigger] a@[i])) ==> x@.len()
            == 1 && x@[0]@ == a@,
        texts(z@) == texts(x@) + texts(y@),
{
    if a@.len() > 0 && (forall|i: int| 0 <= i < a@.len() ==> !is_space(#[trigger] a@[i])) {
        lemma_whole_word(a@);
        assert(trim_start(a@) == a@);
        assert(a@.skip(a@.len() as int) =~= Seq::<char>::empty());
        assert(words(Seq::<char>::empty()) =~= Seq::<Seq<char>>::empty());
        assert(words(a@) =~= seq![a@]);
        assert(texts(x@)[0] == x@[0]@);
    }
    lemma_words_join(a@, c, b@);
}

proof fn lemma_whole_word(s: Seq<char>)
    requires
        forall|i: int| 0 <= i < s.len() ==> !is_space(#[trigger] s[i]),
    ensures
        word(s) == s,
    decreases s.len(),
{
    if s.len() > 0 {
        let t = s.skip(1);
        assert forall|i: int| 0 <= i < t.len() implies !is_space(#[trigger] t[i]) by {
            assert(t[i] == s[i + 1]);
        }
        lemma_whole_word(t);
        assert(seq![s[0]] + t =~= s);
    }
}

/// The words of two texts with white space between them.
pub proof fn lemma_words_join(a: Seq<char>, c: char, b: Seq<char>)
    requires
        is_space(c),
    ensures
        words(a + seq![c] + b) == words(a) + words(b),
    decreases a.len(),
{
    let all = a + seq![c] + b;
    if a.len() == 0 {
        assert(all[0] == c);
        assert(all.skip(1) =~= b);
        assert(words(a) =~= Seq::empty());
        assert(trim_start(all) == trim_start(b));
        assert(words(all) =~= words(b));
    } else if is_space(a[0]) {
        let t = a.skip(1);
        lemma_words_join(t, c, b);
        assert(all.skip(1) =~= t + seq![c] + b);
        assert(trim_start(all) == trim_start(t + seq![c] + b));
        assert(words(all) =~= words(t + seq![c] + b));
        assert(words(a) =~= words(t));
    } else {
        lemma_word_len(a);
        lemma_word_before(a, c, b);
        let k = word(a).len() as int;
        let t = a.skip(k);
        lemma_words_join(t, c, b);
        assert(all.skip(k) =~= t + seq![c] + b);
        assert(words(all) =~= seq![word(a)] + words(t + seq![c] + b));
        assert(words(a) =~= seq![word(a)] + words(t));
        assert(seq![word(a)] + (words(t) + words(b)) =~= words(a) + words(b));
    }
}

proof fn lemma_word_before(a: Seq<char>, c: char, b: Seq<char>)
    requires
        is_space(c),
    ensures
        word(a + seq![c] + b) == word(a),
    decreases a.len(),
{
    let all = a + seq![c] + b;
    if a.len() > 0 && !is_space(a[0]) {
        lemma_word_before(a.skip(1), c, b);
        assert(all.skip(1) =~= a.skip(1) + seq![c] + b);
    }
}

/// How a text splits at the first occurrence of a character: exactly when it has
/// one, into what stands before and what stands behind it.
pub proof fn law_split_at_first(text: &str, c: char, r: Option<(String, String)>)
    requires
        call_ensures(split_at_first, (text, c), r),
    ensures
        r is Some <==> text@.contains(c),
        r matches Some(p) ==> !p.0@.contains(c) && text@ == p.0@ + seq![c] + p.1@,
{
    lemma_find(text@, c);
    let k = find(text@, c) as int;
    if k < text@.len() {
        assert(text@ =~= text@.take(k) + seq![c] + text@.skip(k + 1));
        assert forall|i: int| 0 <= i < k implies text@.take(k)[i] != c by {
            assert(text@[i] != c);
        }
    }
}

/// How a text splits at every occurrence of a character: into one piece without
/// it, and else into what stands before the first one, followed by the pieces of
/// what stands behind.
pub proof fn law_split_on(
    a: &str,
    c: char,
    b: &str,
    whole: &str,
    x: Vec<String>,
    y: Vec<String>,
    z: Vec<String>,
)
    requires
        call_ensures(split_on, (a, c), x),
        call_ensures(split_on, (b, c), y),
        call_ensures(split_on, (whole, c), z),
        !a@.contains(c),
        whole@ == a@ + seq![c] + b@,
    ensures
        texts(x@) == seq![a@],
        texts(z@) == seq![a@] + texts(y@),
{
    lemma_find(a@, c);
    lemma_find_first(a@, c, b@);
    let k = a@.len() as int;
    assert(whole@.take(k) =~= a@);
    assert(whole@.skip(k + 1) =~= b@);
}

/// The first place of a character is the one before which it does not occur.
pub proof fn lemma_find_first(a: Seq<char>, c: char, b: Seq<char>)
    requires
        !a.contains(c),
    ensures
        find(a + seq![c] + b, c) == a.len(),
        find(a, c) == a.len(),
{
    let all = a + seq![c] + b;
    lemma_find(all, c);
    lemma_find(a, c);
    let k = find(all, c) as int;
    assert(all[a.len() as int] == c);
    if k < a.len() {
        assert(a[k] == c);
        assert(a.contains(c));
    }
    if find(a, c) < a.len() {
        assert(a.contains(c));
    }
}

/// How a text splits into lines: none in the empty text, one where nothing ends
/// a line, and else what stands before the first end, without a carriage return
/// at its end, followed by the lines behind it.
pub proof fn law_lines(
    a: &str,
    b: &str,
    whole: &str,
    x: Vec<String>,
    y: Vec<String>,
    z: Vec<String>,
)
    requires
        call_ensures(lines_of, (a,), x),
        call_ensures(lines_of, (b,), y),
        call_ensures(lines_of, (whole,), z),
        !a@.contains('\n'),
        whole@ == a@ + seq!['\n'] + b@,
    ensures
        a@.len() == 0 ==> x@.len() == 0,
        a@.len() > 0 ==> texts(x@) == seq![a@],
        a@.len() > 0 && a@.last() == '\r' ==> texts(z@) == seq![a@.drop_last()] + texts(y@),
        !(a@.len() > 0 && a@.last() == '\r') ==> texts(z@) == seq![a@] + texts(y@),
{
    lemma_find_first(a@, '\n', b@);
    let k = a@.len() as int;
    assert(whole@.take(k) =~= a@);
    assert(whole@.skip(k + 1) =~= b@);
}

/// Two texts are the same exactly when they have the same characters.
pub proof fn law_same(a: &str, b: &str, r: bool)
    requires
        call_ensures(same, (a, b), r),
    ensures
        r <==> a@.len() == b@.len() && forall|i: int| 0 <= i < a@.len() ==> #[trigger] a@[i] == b@[i],
{
    if a@.len() == b@.len() && (forall|i: int| 0 <= i < a@.len() ==> #[trigger] a@[i] == b@[i]) {
        assert(a@ =~= b@);
    }
}

/// A text without white space is one word.
pub proof fn lemma_one_word(s: Seq<char>)
    requires
        s.len() > 0,
        forall|i: int| 0 <= i < s.len() ==> !is_space(#[trigger] s[i]),
    ensures
        words(s) == seq![s],
{
    lemma_whole_word(s);
    assert(s.skip(s.len() as int) =~= Seq::<char>::empty());
    assert(words(Seq::<char>::empty()) =~= Seq::<Seq<char>>::empty());
    assert(words(s) =~= seq![s]);
}

/// A text that neither starts nor ends with white space has none to trim.
pub proof fn lemma_nothing_to_trim(s: Seq<char>)
    requires
        s.len() > 0 ==> !is_space(s[0]) && !is_space(s.last()),
    ensures
        trim(s) == s,
        trim_start(s) == s,
{
}

/// How bytes are written in hexadecimal: two digits each, the larger one first, in
/// order.
pub proof fn law_hex(bytes: &[u8], more: &[u8], b: u8, x: String, y: String)
    requires
        more@ == bytes@.push(b),
        call_ensures(hex_string, (bytes,), x),
        call_ensures(hex_string, (more,), y),
    ensures
        x@.len() == 2 * bytes@.len(),
        y@ == x@ + y@.skip(y@.len() - 2),
        digit_value(y@[y@.len() - 2]) * 16 + digit_value(y@.last()) == b,
        0 <= digit_value(y@.last()) < 16,
{
    assert(more@.drop_last() =~= bytes@);
    lemma_hex_length(bytes@);
    let tail = hex_byte(b);
    assert(y@ =~= x@ + tail);
    assert(y@.skip(y@.len() - 2) =~= tail);
    assert(y@[y@.len() - 2] == tail[0] && y@.last() == tail[1]);
}

proof fn lemma_hex_length(bytes: Seq<u8>)
    ensures
        hex_bytes(bytes).len() == 2 * bytes.len(),
    decreases bytes.len(),
{
    if bytes.len() > 0 {
        lemma_hex_length(bytes.drop_last());
    }
}

} // verus!
