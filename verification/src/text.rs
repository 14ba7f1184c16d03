//! Text as sequences of characters: decimal numbers, trimming, splitting and
//! searching, each stated over the characters it reads and writes.

use vstd::prelude::*;
use vstd::string::*;

verus! {

/// `String::push` appends the given character to the end of the string.
pub assume_specification[ String::push ](s: &mut String, ch: char)
    ensures
        final(s)@ == old(s)@.push(ch),
;

// ---------------------------------------------------------------------------
// Characters
// ---------------------------------------------------------------------------
/// An ASCII decimal digit.
pub open spec fn is_digit(c: char) -> bool {
    '0' <= c <= '9'
}

/// An ASCII hexadecimal digit, in either case.
pub open spec fn is_hex_digit(c: char) -> bool {
    '0' <= c <= '9' || 'a' <= c <= 'f' || 'A' <= c <= 'F'
}

/// A character with Unicode's `White_Space` property.
pub open spec fn is_white(c: char) -> bool {
    ||| '\u{9}' <= c <= '\u{d}'
    ||| c == '\u{20}'
    ||| c == '\u{85}'
    ||| c == '\u{a0}'
    ||| c == '\u{1680}'
    ||| '\u{2000}' <= c <= '\u{200a}'
    ||| c == '\u{2028}'
    ||| c == '\u{2029}'
    ||| c == '\u{202f}'
    ||| c == '\u{205f}'
    ||| c == '\u{3000}'
}

/// The digit that stands for `d`, for `d` below ten.
pub open spec fn digit(d: nat) -> char {
    (48 + d) as char
}

/// Whether `c` is white space.
pub fn white(c: char) -> (r: bool)
    ensures
        r == is_white(c),
{
    ('\u{9}' <= c && c <= '\u{d}') || c == '\u{20}' || c == '\u{85}' || c == '\u{a0}' || c
        == '\u{1680}' || ('\u{2000}' <= c && c <= '\u{200a}') || c == '\u{2028}' || c == '\u{2029}'
        || c == '\u{202f}' || c == '\u{205f}' || c == '\u{3000}'
}

/// Whether `c` is an ASCII decimal digit.
pub fn digit_char(c: char) -> (r: bool)
    ensures
        r == is_digit(c),
{
    '0' <= c && c <= '9'
}

/// Whether `c` is an ASCII hexadecimal digit.
pub fn hex_char(c: char) -> (r: bool)
    ensures
        r == is_hex_digit(c),
{
    ('0' <= c && c <= '9') || ('a' <= c && c <= 'f') || ('A' <= c && c <= 'F')
}

// ---------------------------------------------------------------------------
// Whole strings
// ---------------------------------------------------------------------------
/// The characters of each string of a list.
pub open spec fn texts(list: Seq<String>) -> Seq<Seq<char>> {
    list.map_values(|s: String| s@)
}

/// The characters of each piece of a list.
pub open spec fn pieces(list: Seq<Vec<char>>) -> Seq<Seq<char>> {
    list.map_values(|p: Vec<char>| p@)
}

/// The text of an optional string.
pub open spec fn text_option(s: Option<String>) -> Option<Seq<char>> {
    match s {
        Some(t) => Some(t@),
        None => None,
    }
}

/// The characters of a string.
pub fn chars_of(s: &str) -> (r: Vec<char>)
    ensures
        r@ == s@,
{
    let mut out: Vec<char> = Vec::new();
    for c in it: s.chars()
        invariant
            out@ == s@.take(it.index() as int),
            it.seq() == s@,
    {
        out.push(c);
        assert(s@.take(it.index() as int).push(c) =~= s@.take(it.index() + 1));
    }
    assert(s@.take(s@.len() as int) =~= s@);
    out
}

/// The string made of the given characters.
pub fn text_of(chars: &[char]) -> (r: String)
    ensures
        r@ == chars@,
{
    let mut out = String::new();
    let mut i: usize = 0;
    while i < chars.len()
        invariant
            i <= chars@.len(),
            out@ == chars@.take(i as int),
        decreases chars@.len() - i,
    {
        out.push(chars[i]);
        assert(chars@.take(i as int).push(chars@[i as int]) =~= chars@.take(i + 1));
        i += 1;
    }
    assert(chars@.take(chars@.len() as int) =~= chars@);
    out
}

/// Whether two runs of characters are the same.
pub fn same_chars(a: &[char], b: &[char]) -> (r: bool)
    ensures
        r == (a@ == b@),
{
    if a.len() != b.len() {
        return false;
    }
    let mut i: usize = 0;
    while i < a.len()
        invariant
            i <= a@.len() == b@.len(),
            forall|j: int| 0 <= j < i ==> a@[j] == b@[j],
        decreases a@.len() - i,
    {
        if a[i] != b[i] {
            return false;
        }
        i += 1;
    }
    assert(a@ =~= b@);
    true
}

/// Whether two strings hold the same text.
pub fn same_text(a: &str, b: &str) -> (r: bool)
    ensures
        r == (a@ == b@),
{
    let left = chars_of(a);
    let right = chars_of(b);
    same_chars(left.as_slice(), right.as_slice())
}

/// A copy of the characters from `from` up to `to`.
pub fn copy_chars(chars: &[char], from: usize, to: usize) -> (r: Vec<char>)
    requires
        from <= to <= chars@.len(),
    ensures
        r@ == chars@.subrange(from as int, to as int),
{
    let mut out: Vec<char> = Vec::new();
    let mut i: usize = from;
    while i < to
        invariant
            from <= i <= to <= chars@.len(),
            out@ == chars@.subrange(from as int, i as int),
        decreases to - i,
    {
        out.push(chars[i]);
        assert(chars@.subrange(from as int, i as int).push(chars@[i as int]) =~= chars@.subrange(
            from as int,
            i + 1,
        ));
        i += 1;
    }
    out
}

// ---------------------------------------------------------------------------
// Decimal numbers
// ---------------------------------------------------------------------------
/// `n` written in decimal, without leading zeros.
pub open spec fn decimal(n: nat) -> Seq<char>
    decreases n,
{
    if n < 10 {
        seq![digit(n)]
    } else {
        decimal(n / 10).push(digit(n % 10))
    }
}

/// `n` written in decimal with at least two digits.
pub open spec fn two_digits(n: nat) -> Seq<char> {
    if n < 10 {
        seq!['0'] + decimal(n)
    } else {
        decimal(n)
    }
}

/// The number that a run of decimal digits stands for.
pub open spec fn value(s: Seq<char>) -> nat
    decreases s.len(),
{
    if s.len() == 0 {
        0
    } else {
        value(s.drop_last()) * 10 + (s.last() as nat - 48) as nat
    }
}

/// Every character is a decimal digit.
pub open spec fn all_digits(s: Seq<char>) -> bool {
    forall|i: int| 0 <= i < s.len() ==> is_digit(#[trigger] s[i])
}

/// A number written in decimal is made of digits, and reading it gives the number back.
pub proof fn lemma_decimal_round_trip(n: nat)
    ensures
        decimal(n).len() > 0,
        all_digits(decimal(n)),
        value(decimal(n)) == n,
    decreases n,
{
    reveal_with_fuel(value, 2);
    if n < 10 {
        assert(decimal(n).drop_last() =~= Seq::<char>::empty());
    } else {
        lemma_decimal_round_trip(n / 10);
        assert(decimal(n).drop_last() =~= decimal(n / 10));
    }
}

/// Leading digits only make a number larger.
pub proof fn lemma_value_prefix(s: Seq<char>, k: int)
    requires
        0 <= k <= s.len(),
    ensures
        value(s.take(k)) <= value(s),
    decreases s.len() - k,
{
    if k < s.len() {
        lemma_value_prefix(s, k + 1);
        assert(s.take(k + 1).drop_last() =~= s.take(k));
    } else {
        assert(s.take(k) =~= s);
    }
}

/// Appends `n` in decimal.
pub fn push_decimal(out: &mut String, n: u64)
    ensures
        final(out)@ == old(out)@ + decimal(n as nat),
    decreases n,
{
    if n >= 10 {
        push_decimal(out, n / 10);
    }
    let d: u8 = (n % 10) as u8;
    out.push((48u8 + d) as char);
    assert(out@ =~= old(out)@ + decimal(n as nat));
}

/// Appends `n` in decimal, with at least two digits.
pub fn push_two_digits(out: &mut String, n: u64)
    ensures
        final(out)@ == old(out)@ + two_digits(n as nat),
{
    if n < 10 {
        out.push('0');
    }
    push_decimal(out, n);
    assert(out@ =~= old(out)@ + two_digits(n as nat));
}

/// Reads a run of digits as a `u32`; `None` when there is no digit, when a
/// character is not a digit, or when the number does not fit.
pub fn parse_u32(digits: &[char]) -> (r: Option<u32>)
    ensures
        r is Some <==> digits@.len() > 0 && all_digits(digits@) && value(digits@) <= u32::MAX,
        r matches Some(n) ==> n == value(digits@),
{
    if digits.len() == 0 {
        return None;
    }
    let mut n: u64 = 0;
    let mut i: usize = 0;
    while i < digits.len()
        invariant
            i <= digits@.len(),
            n == value(digits@.take(i as int)),
            n <= u32::MAX,
            forall|j: int| 0 <= j < i ==> is_digit(#[trigger] digits@[j]),
        decreases digits@.len() - i,
    {
        let c = digits[i];
        if !digit_char(c) {
            return None;
        }
        proof {
            assert(digits@.take(i + 1).drop_last() =~= digits@.take(i as int));
            lemma_value_prefix(digits@, i + 1);
        }
        n = n * 10 + (c as u64 - 48);
        if n > u32::MAX as u64 {
            return None;
        }
        i += 1;
    }
    assert(digits@.take(digits@.len() as int) =~= digits@);
    Some(n as u32)
}

/// A decimal octet as an integer parser takes it: an optional plus sign, then
/// at least one digit, with a value of at most 255.
pub open spec fn is_octet(s: Seq<char>) -> bool {
    let digits = if s.len() > 0 && s[0] == '+' {
        s.skip(1)
    } else {
        s
    };
    digits.len() > 0 && all_digits(digits) && value(digits) <= 255
}

/// Whether the characters are a decimal octet.
pub fn octet(s: &[char]) -> (r: bool)
    ensures
        r == is_octet(s@),
{
    let start: usize = if s.len() > 0 && s[0] == '+' {
        1
    } else {
        0
    };
    let digits = copy_chars(s, start, s.len());
    assert(digits@ =~= (if start == 1 {
        s@.skip(1)
    } else {
        s@
    }));
    match parse_u32(digits.as_slice()) {
        Some(n) => n <= 255,
        None => false,
    }
}

// ---------------------------------------------------------------------------
// Trimming
// ---------------------------------------------------------------------------
/// The text without its leading white space.
pub open spec fn trim_start(s: Seq<char>) -> Seq<char>
    decreases s.len(),
{
    if s.len() > 0 && is_white(s[0]) {
        trim_start(s.drop_first())
    } else {
        s
    }
}

/// The text without its trailing white space.
pub open spec fn trim_end(s: Seq<char>) -> Seq<char>
    decreases s.len(),
{
    if s.len() > 0 && is_white(s.last()) {
        trim_end(s.drop_last())
    } else {
        s
    }
}

/// The text without white space at either end.
pub open spec fn trimmed(s: Seq<char>) -> Seq<char> {
    trim_end(trim_start(s))
}

/// Trimming at the end keeps the beginning.
proof fn lemma_trim_end_prefix(s: Seq<char>)
    ensures
        trim_end(s).len() <= s.len(),
        trim_end(s) == s.take(trim_end(s).len() as int),
        trim_end(s).len() > 0 ==> !is_white(trim_end(s).last()),
    decreases s.len(),
{
    if s.len() > 0 && is_white(s.last()) {
        lemma_trim_end_prefix(s.drop_last());
        let n = trim_end(s).len() as int;
        assert(s.drop_last().take(n) =~= s.take(n));
    } else {
        assert(s.take(s.len() as int) =~= s);
    }
}

/// Trimming at the start leaves no white space there.
proof fn lemma_trim_start_first(s: Seq<char>)
    ensures
        trim_start(s).len() > 0 ==> !is_white(trim_start(s)[0]),
    decreases s.len(),
{
    if s.len() > 0 && is_white(s[0]) {
        lemma_trim_start_first(s.drop_first());
    }
}

/// A text that has been trimmed has nothing left to trim.
pub proof fn lemma_trimmed_is_trimmed(s: Seq<char>)
    ensures
        trimmed(trimmed(s)) == trimmed(s),
        trimmed(s).len() > 0 ==> !is_white(trimmed(s)[0]) && !is_white(trimmed(s).last()),
{
    let rest = trim_start(s);
    lemma_trim_start_first(s);
    lemma_trim_end_prefix(rest);
    let kept = trim_end(rest);
    if kept.len() > 0 {
        assert(kept[0] == rest[0]);
    }
    assert(trim_start(kept) == kept);
    lemma_trim_end_prefix(kept);
    assert(trim_end(kept) == kept);
}

/// Removes white space from both ends of a text.
pub fn trim(s: &str) -> (r: String)
    ensures
        r@ == trimmed(s@),
{
    let chars = chars_of(s);
    let kept = trim_chars(chars.as_slice());
    text_of(kept.as_slice())
}

/// Removes white space from both ends of a run of characters.
pub fn trim_chars(chars: &[char]) -> (r: Vec<char>)
    ensures
        r@ == trimmed(chars@),
{
    let n: usize = chars.len();
    let mut from: usize = 0;
    assert(chars@.skip(0) =~= chars@);
    while from < n && white(chars[from])
        invariant
            n == chars@.len(),
            from <= n,
            trim_start(chars@) == trim_start(chars@.skip(from as int)),
        decreases n - from,
    {
        assert(chars@.skip(from as int).drop_first() =~= chars@.skip(from + 1));
        from += 1;
    }
    let ghost rest = chars@.skip(from as int);
    assert(trim_start(chars@) == rest);
    let mut to: usize = n;
    assert(rest.take(n - from) =~= rest);
    while to > from && white(chars[to - 1])
        invariant
            n == chars@.len(),
            from <= to <= n,
            rest == chars@.skip(from as int),
            trim_end(rest) == trim_end(rest.take(to - from)),
        decreases to,
    {
        assert(rest.take(to - from).drop_last() =~= rest.take(to - from - 1));
        assert(rest.take(to - from).last() == chars@[to - 1]);
        to -= 1;
    }
    assert(rest.take(to - from) =~= chars@.subrange(from as int, to as int));
    copy_chars(chars, from, to)
}

// ---------------------------------------------------------------------------
// Searching
// ---------------------------------------------------------------------------
/// `pat` stands in `s` at position `i`.
pub open spec fn occurs_at(s: Seq<char>, pat: Seq<char>, i: int) -> bool {
    0 <= i && i + pat.len() <= s.len() && s.subrange(i, i + pat.len()) == pat
}

/// `pat` stands somewhere in `s`.
pub open spec fn contains(s: Seq<char>, pat: Seq<char>) -> bool {
    exists|i: int| #[trigger] occurs_at(s, pat, i)
}

/// `i` is the first position at which `pat` stands in `s`.
pub open spec fn first_at(s: Seq<char>, pat: Seq<char>, i: int) -> bool {
    occurs_at(s, pat, i) && forall|j: int| j < i ==> !#[trigger] occurs_at(s, pat, j)
}

/// The first position at which `pat` stands in `s`, where it does.
pub open spec fn position(s: Seq<char>, pat: Seq<char>) -> Option<int> {
    if contains(s, pat) {
        Some(choose|i: int| first_at(s, pat, i))
    } else {
        None
    }
}

/// Whether `pat` stands in `s` at position `i`.
pub fn stands_at(s: &[char], pat: &[char], i: usize) -> (r: bool)
    ensures
        r == occurs_at(s@, pat@, i as int),
{
    if pat.len() > s.len() || i > s.len() - pat.len() {
        return false;
    }
    let piece = copy_chars(s, i, i + pat.len());
    same_chars(piece.as_slice(), pat)
}

/// The first position at which `pat` stands in `s`.
pub fn find(s: &[char], pat: &[char]) -> (r: Option<usize>)
    ensures
        position(s@, pat@) == (match r {
            Some(i) => Some(i as int),
            None => None,
        }),
        r matches Some(i) ==> first_at(s@, pat@, i as int),
{
    let mut i: usize = 0;
    while i <= s.len()
        invariant
            i <= s@.len() + 1,
            forall|j: int| j < i ==> !#[trigger] occurs_at(s@, pat@, j),
        decreases s@.len() + 1 - i,
    {
        if stands_at(s, pat, i) {
            proof {
                assert(first_at(s@, pat@, i as int));
                let p = choose|p: int| first_at(s@, pat@, p);
                assert(occurs_at(s@, pat@, p));
                assert(p == i);
            }
            return Some(i);
        }
        if i == s.len() {
            return None;
        }
        i += 1;
    }
    None
}

/// Whether `text` holds `pat` somewhere.
pub fn has(text: &str, pat: &str) -> (r: bool)
    ensures
        r == contains(text@, pat@),
{
    let s = chars_of(text);
    let p = chars_of(pat);
    match find(s.as_slice(), p.as_slice()) {
        Some(_i) => true,
        None => false,
    }
}

/// Whether `text` holds the character `c`.
pub fn has_char(text: &[char], c: char) -> (r: bool)
    ensures
        r == text@.contains(c),
{
    let mut i: usize = 0;
    while i < text.len()
        invariant
            i <= text@.len(),
            forall|j: int| 0 <= j < i ==> text@[j] != c,
        decreases text@.len() - i,
    {
        if text[i] == c {
            return true;
        }
        i += 1;
    }
    false
}

/// Whether `text` begins with `prefix`.
pub fn begins_with(text: &str, prefix: &str) -> (r: bool)
    ensures
        r == occurs_at(text@, prefix@, 0),
{
    let s = chars_of(text);
    let p = chars_of(prefix);
    stands_at(s.as_slice(), p.as_slice(), 0)
}

// ---------------------------------------------------------------------------
// Splitting
// ---------------------------------------------------------------------------
/// The pieces of `s` between the occurrences of `sep`: one more than there are
/// occurrences, and the text itself where there is none.
pub open spec fn split(s: Seq<char>, sep: char) -> Seq<Seq<char>>
    decreases s.len(),
{
    if s.len() == 0 {
        seq![Seq::empty()]
    } else {
        let before = split(s.drop_last(), sep);
        if s.last() == sep {
            before.push(Seq::empty())
        } else {
            before.update(before.len() - 1, before.last().push(s.last()))
        }
    }
}

/// The words of `s`: its longest runs without white space, in order.
pub open spec fn words(s: Seq<char>) -> Seq<Seq<char>>
    decreases s.len(),
{
    if s.len() == 0 {
        Seq::empty()
    } else {
        let before = words(s.drop_last());
        let c = s.last();
        if is_white(c) {
            before
        } else if s.len() == 1 || is_white(s[s.len() - 2]) {
            before.push(seq![c])
        } else {
            before.update(before.len() - 1, before.last().push(c))
        }
    }
}

/// `line` without a carriage return at its end.
pub open spec fn without_return(line: Seq<char>) -> Seq<char> {
    if line.len() > 0 && line.last() == '\r' {
        line.drop_last()
    } else {
        line
    }
}

/// The lines of `s`, without their endings. A line ends in a line feed, or in a
/// carriage return and a line feed; the ending of the last line is optional.
pub open spec fn lines(s: Seq<char>) -> Seq<Seq<char>> {
    let parts = split(s, '\n');
    let ended = parts.drop_last().map_values(|p: Seq<char>| without_return(p));
    if parts.last().len() == 0 {
        ended
    } else {
        ended.push(parts.last())
    }
}

/// Splits a run of characters at each `sep`.
pub fn split_at_each(s: &[char], sep: char) -> (r: Vec<Vec<char>>)
    ensures
        pieces(r@) == split(s@, sep),
        r@.len() > 0,
{
    let mut out: Vec<Vec<char>> = Vec::new();
    let mut piece: Vec<char> = Vec::new();
    let mut i: usize = 0;
    proof {
        assert(s@.take(0) =~= Seq::<char>::empty());
        assert(pieces(out@).push(piece@) =~= split(s@.take(0), sep));
    }
    while i < s.len()
        invariant
            i <= s@.len(),
            pieces(out@).push(piece@) == split(s@.take(i as int), sep),
        decreases s@.len() - i,
    {
        let c = s[i];
        let ghost before = pieces(out@).push(piece@);
        proof {
            assert(s@.take(i + 1).drop_last() =~= s@.take(i as int));
            assert(s@.take(i + 1).last() == c);
        }
        if c == sep {
            out.push(piece);
            piece = Vec::new();
            assert(pieces(out@).push(piece@) =~= before.push(Seq::empty()));
        } else {
            piece.push(c);
            assert(pieces(out@).push(piece@) =~= before.update(
                before.len() - 1,
                before.last().push(c),
            ));
        }
        i += 1;
    }
    assert(s@.take(s@.len() as int) =~= s@);
    let ghost all = pieces(out@).push(piece@);
    out.push(piece);
    assert(pieces(out@) =~= all);
    out
}

/// The words of a run of characters.
pub fn words_of(s: &[char]) -> (r: Vec<Vec<char>>)
    ensures
        pieces(r@) == words(s@),
{
    let mut out: Vec<Vec<char>> = Vec::new();
    let mut word: Vec<char> = Vec::new();
    let mut i: usize = 0;
    proof {
        assert(s@.take(0) =~= Seq::<char>::empty());
        assert(pieces(out@) =~= words(s@.take(0)));
    }
    while i < s.len()
        invariant
            i <= s@.len(),
            (word@.len() > 0) == (i > 0 && !is_white(s@[i - 1])),
            word@.len() > 0 ==> pieces(out@).push(word@) == words(s@.take(i as int)),
            word@.len() == 0 ==> pieces(out@) == words(s@.take(i as int)),
        decreases s@.len() - i,
    {
        let c = s[i];
        proof {
            assert(s@.take(i + 1).drop_last() =~= s@.take(i as int));
            assert(s@.take(i + 1).last() == c);
            if i > 0 {
                assert(s@.take(i + 1)[i - 1] == s@[i - 1]);
            }
        }
        if white(c) {
            if word.len() > 0 {
                let ghost all = pieces(out@).push(word@);
                out.push(word);
                word = Vec::new();
                assert(pieces(out@) =~= all);
            }
        } else {
            let ghost before = words(s@.take(i as int));
            let ghost fresh = word@.len() == 0;
            word.push(c);
            proof {
                if fresh {
                    assert(word@ =~= seq![c]);
                } else {
                    assert(pieces(out@).push(word@) =~= before.update(
                        before.len() - 1,
                        before.last().push(c),
                    ));
                }
            }
        }
        i += 1;
    }
    assert(s@.take(s@.len() as int) =~= s@);
    if word.len() > 0 {
        let ghost all = pieces(out@).push(word@);
        out.push(word);
        assert(pieces(out@) =~= all);
    }
    out
}

/// The lines of a text.
pub fn lines_of(s: &str) -> (r: Vec<Vec<char>>)
    ensures
        pieces(r@) == lines(s@),
{
    let chars = chars_of(s);
    let parts = split_at_each(chars.as_slice(), '\n');
    let ghost all = split(s@, '\n');
    let n: usize = parts.len();
    let mut out: Vec<Vec<char>> = Vec::new();
    let mut i: usize = 0;
    let ghost ended = all.drop_last().map_values(|p: Seq<char>| without_return(p));
    assert(pieces(parts@).len() == parts@.len());
    while i < n - 1
        invariant
            n == parts@.len(),
            n > 0,
            i <= n - 1,
            all == pieces(parts@),
            ended == all.drop_last().map_values(|p: Seq<char>| without_return(p)),
            pieces(out@) == ended.take(i as int),
        decreases n - i,
    {
        let len: usize = parts[i].len();
        let keep: usize = if len > 0 && parts[i][len - 1] == '\r' {
            len - 1
        } else {
            len
        };
        let line = copy_chars(parts[i].as_slice(), 0, keep);
        proof {
            assert(all[i as int] == parts@[i as int]@);
            assert(line@ =~= without_return(all[i as int]));
            assert(ended[i as int] == without_return(all[i as int]));
        }
        let ghost before = out@;
        out.push(line);
        assert(pieces(out@) =~= pieces(before).push(line@));
        assert(pieces(out@) =~= ended.take(i as int).push(ended[i as int]));
        assert(ended.take(i as int).push(ended[i as int]) =~= ended.take(i + 1));
        i += 1;
    }
    assert(ended.take(n - 1) =~= ended);
    assert(all.last() == parts@[n - 1]@);
    if parts[n - 1].len() > 0 {
        let last = copy_chars(parts[n - 1].as_slice(), 0, parts[n - 1].len());
        assert(last@ =~= all.last());
        out.push(last);
        assert(pieces(out@) =~= ended.push(all.last()));
    }
    out
}

// ---------------------------------------------------------------------------
// Laws
// ---------------------------------------------------------------------------
/// The decimal digits are the ten characters from `0` to `9`, and the hexadecimal ones
/// have the six letters from `a` to `f` besides, in either case.
pub proof fn law_digits(c: char)
    ensures
        is_digit(c) <==> 0x30 <= c as u32 <= 0x39,
        is_hex_digit(c) <==> 0x30 <= c as u32 <= 0x39 || 0x61 <= c as u32 <= 0x66 || 0x41
            <= c as u32 <= 0x46,
{
}

/// A number is written in base ten: a last digit below ten goes behind the number that
/// the digits before it make, and a number below ten is its digit alone.
pub proof fn law_decimal_is_base_ten(tens: nat, units: nat)
    requires
        units < 10,
    ensures
        decimal(units) == seq![(0x30 + units) as char],
        tens > 0 ==> decimal(tens * 10 + units) == decimal(tens) + seq![(0x30 + units) as char],
        two_digits(units) == seq!['0', (0x30 + units) as char],
        1 <= tens < 10 ==> two_digits(tens * 10 + units) == seq![
            (0x30 + tens) as char,
            (0x30 + units) as char,
        ],
{
    if tens > 0 {
        let n = tens * 10 + units;
        assert(n / 10 == tens && n % 10 == units);
        assert(decimal(n) =~= decimal(tens) + seq![(0x30 + units) as char]);
    }
    assert(two_digits(units) =~= seq!['0', (0x30 + units) as char]);
    if 1 <= tens < 10 {
        assert(two_digits(tens * 10 + units) =~= seq![
            (0x30 + tens) as char,
            (0x30 + units) as char,
        ]);
    }
}

/// A run of digits is read in base ten: one more digit behind it makes the number ten
/// times as large, and adds the digit.
pub proof fn law_value_is_base_ten(s: Seq<char>, units: nat)
    requires
        units < 10,
    ensures
        value(Seq::empty()) == 0,
        value(s.push((0x30 + units) as char)) == value(s) * 10 + units,
{
    assert(s.push((0x30 + units) as char).drop_last() =~= s);
}

/// Every number up to 255 is an octet, written with or without leading zeros, and with
/// or without a plus sign; nothing else is.
pub proof fn law_octets(s: Seq<char>)
    ensures
        ({
            let in_range = s.len() > 0 && value(s) <= 255 && forall|i: int|
                0 <= i < s.len() ==> '0' <= #[trigger] s[i] <= '9';
            &&& s.len() > 0 && s[0] != '+' ==> (is_octet(s) <==> in_range)
            &&& is_octet(seq!['+'] + s) <==> in_range
            &&& s.len() == 0 ==> !is_octet(s)
        }),
{
    assert((seq!['+'] + s).skip(1) =~= s);
    let in_range = s.len() > 0 && value(s) <= 255 && forall|i: int|
        0 <= i < s.len() ==> '0' <= #[trigger] s[i] <= '9';
    if in_range {
        assert(all_digits(s));
    }
    if all_digits(s) {
        assert forall|i: int| 0 <= i < s.len() implies '0' <= #[trigger] s[i] <= '9' by {
            assert(is_digit(s[i]));
        }
    }
}

/// Trimming takes the white space before and behind a text, and nothing of the text:
/// what is left is all that stands between.
pub proof fn law_trim_keeps_the_middle(before: Seq<char>, middle: Seq<char>, behind: Seq<char>)
    requires
        forall|i: int| 0 <= i < before.len() ==> is_white(#[trigger] before[i]),
        forall|i: int| 0 <= i < behind.len() ==> is_white(#[trigger] behind[i]),
        middle.len() > 0 ==> !is_white(middle[0]) && !is_white(middle.last()),
    ensures
        trimmed(before + middle + behind) == middle,
    decreases before.len() + behind.len(),
{
    let s = before + middle + behind;
    if before.len() > 0 {
        let rest = before.drop_first();
        assert(is_white(before[0]));
        assert forall|i: int| 0 <= i < rest.len() implies is_white(#[trigger] rest[i]) by {
            assert(rest[i] == before[i + 1]);
        }
        law_trim_keeps_the_middle(rest, middle, behind);
        assert(s.drop_first() =~= rest + middle + behind);
        assert(s[0] == before[0]);
    } else if middle.len() == 0 {
        assert(s =~= behind);
        if behind.len() > 0 {
            let rest = behind.drop_first();
            assert(is_white(behind[0]));
            assert forall|i: int| 0 <= i < rest.len() implies is_white(#[trigger] rest[i]) by {
                assert(rest[i] == behind[i + 1]);
            }
            law_trim_keeps_the_middle(before, middle, rest);
            assert(before + middle + rest =~= rest);
            assert(s.drop_first() =~= rest);
        } else {
            assert(s =~= middle);
        }
    } else {
        assert(s =~= middle + behind);
        assert(s[0] == middle[0]);
        assert(trim_start(s) == s);
        lemma_trim_end_of(middle, behind);
    }
}

/// White space behind a text that ends in none is taken from its end.
proof fn lemma_trim_end_of(middle: Seq<char>, behind: Seq<char>)
    requires
        forall|i: int| 0 <= i < behind.len() ==> is_white(#[trigger] behind[i]),
        middle.len() > 0,
        !is_white(middle.last()),
    ensures
        trim_end(middle + behind) == middle,
    decreases behind.len(),
{
    let s = middle + behind;
    if behind.len() > 0 {
        let rest = behind.drop_last();
        assert(is_white(behind[behind.len() - 1]));
        assert forall|i: int| 0 <= i < rest.len() implies is_white(#[trigger] rest[i]) by {
            assert(rest[i] == behind[i]);
        }
        lemma_trim_end_of(middle, rest);
        assert(s.drop_last() =~= middle + rest);
        assert(s.last() == behind.last());
    } else {
        assert(s =~= middle);
    }
}

/// A text stands at a position exactly when each of its characters does, and it is
/// contained where it stands at some position.
pub proof fn law_contains_finds_every_place(s: Seq<char>, pat: Seq<char>, i: int)
    ensures
        occurs_at(s, pat, i) <==> 0 <= i && i + pat.len() <= s.len() && forall|k: int|
            0 <= k < pat.len() ==> s[i + k] == #[trigger] pat[k],
        occurs_at(s, pat, i) ==> contains(s, pat),
        contains(s, pat) ==> exists|j: int|
            0 <= j && j + pat.len() <= s.len() && #[trigger] s.subrange(j, j + pat.len()) == pat,
{
    if occurs_at(s, pat, i) {
        assert forall|k: int| 0 <= k < pat.len() implies s[i + k] == #[trigger] pat[k] by {
            assert(s.subrange(i, i + pat.len())[k] == s[i + k]);
        }
    }
    if 0 <= i && i + pat.len() <= s.len() && forall|k: int|
        0 <= k < pat.len() ==> s[i + k] == #[trigger] pat[k] {
        assert(s.subrange(i, i + pat.len()) =~= pat);
    }
    if contains(s, pat) {
        let j = choose|j: int| #[trigger] occurs_at(s, pat, j);
        assert(s.subrange(j, j + pat.len()) == pat);
    }
}

/// A text is split at every separator and nowhere else: what stands before one is split
/// by itself and so is what stands behind it, and a text without separators is one
/// piece.
pub proof fn law_split_at_every_separator(a: Seq<char>, b: Seq<char>, sep: char)
    ensures
        split(a + seq![sep] + b, sep) == split(a, sep) + split(b, sep),
        split(b, sep).len() > 0,
        !b.contains(sep) ==> split(b, sep) == seq![b],
    decreases b.len(),
{
    let s = a + seq![sep] + b;
    let none = Seq::<char>::empty();
    if b.len() == 0 {
        assert(s.drop_last() =~= a);
        assert(s.last() == sep);
        assert(split(b, sep) == seq![none]);
        assert(split(a, sep).push(none) =~= split(a, sep) + seq![none]);
        assert(b =~= none);
    } else {
        let shorter = b.drop_last();
        law_split_at_every_separator(a, shorter, sep);
        assert(s.drop_last() =~= a + seq![sep] + shorter);
        assert(s.last() == b.last());
        let left = split(a, sep);
        let right = split(shorter, sep);
        if b.last() == sep {
            assert((left + right).push(none) =~= left + right.push(none));
            assert(b[b.len() - 1] == sep);
        } else {
            assert((left + right).update(
                left.len() + right.len() - 1,
                (left + right).last().push(b.last()),
            ) =~= left + right.update(right.len() - 1, right.last().push(b.last())));
            if !b.contains(sep) {
                assert forall|i: int| 0 <= i < shorter.len() implies shorter[i] != sep by {
                    assert(b[i] == shorter[i]);
                }
                assert(right == seq![shorter]);
                assert(shorter.push(b.last()) =~= b);
                assert(split(b, sep) =~= seq![b]);
            }
        }
    }
}

/// White space ends a word, however much of it there is: the words of a text are those
/// before some white space and those behind it. A run without white space is one word,
/// and an empty text has none.
pub proof fn law_words_between_white_space(a: Seq<char>, white: char, b: Seq<char>)
    requires
        is_white(white),
    ensures
        words(a + seq![white] + b) == words(a) + words(b),
        words(Seq::empty()).len() == 0,
        b.len() > 0 && (forall|i: int| 0 <= i < b.len() ==> !is_white(#[trigger] b[i])) ==> words(
            b,
        ) == seq![b],
    decreases b.len(),
{
    let s = a + seq![white] + b;
    if b.len() == 0 {
        assert(s.drop_last() =~= a);
        assert(s.last() == white);
        assert(words(a) + words(b) =~= words(a));
    } else {
        let shorter = b.drop_last();
        let c = b.last();
        law_words_between_white_space(a, white, shorter);
        assert(s.drop_last() =~= a + seq![white] + shorter);
        assert(s.last() == c);
        let left = words(a);
        let right = words(shorter);
        if b.len() == 1 {
            assert(s[s.len() - 2] == white);
            assert(right.len() == 0);
            assert(shorter =~= Seq::<char>::empty());
            if !is_white(c) {
                assert((left + right).push(seq![c]) =~= left + right.push(seq![c]));
                assert(b =~= seq![c]);
                assert(right.push(seq![c]) =~= seq![b]);
            }
        } else {
            assert(s[s.len() - 2] == b[b.len() - 2]);
            lemma_word_at_the_end(shorter);
            if !is_white(c) {
                if is_white(b[b.len() - 2]) {
                    assert((left + right).push(seq![c]) =~= left + right.push(seq![c]));
                } else {
                    assert(shorter.last() == b[b.len() - 2]);
                    assert((left + right).update(
                        left.len() + right.len() - 1,
                        (left + right).last().push(c),
                    ) =~= left + right.update(right.len() - 1, right.last().push(c)));
                }
            }
            if forall|i: int| 0 <= i < b.len() ==> !is_white(#[trigger] b[i]) {
                assert forall|i: int| 0 <= i < shorter.len() implies !is_white(
                    #[trigger] shorter[i],
                ) by {
                    assert(b[i] == shorter[i]);
                }
                assert(right == seq![shorter]);
                assert(!is_white(b[b.len() - 1]));
                assert(!is_white(b[b.len() - 2]));
                assert(shorter.push(c) =~= b);
                assert(words(b) =~= seq![b]);
            }
        }
    }
}

/// A text that does not end in white space has a last word.
proof fn lemma_word_at_the_end(s: Seq<char>)
    requires
        s.len() > 0,
    ensures
        !is_white(s.last()) ==> words(s).len() > 0,
    decreases s.len(),
{
    if s.len() > 1 && !is_white(s.last()) && !is_white(s[s.len() - 2]) {
        assert(s.drop_last().last() == s[s.len() - 2]);
        lemma_word_at_the_end(s.drop_last());
    }
}

/// A line ends at a line feed, and a carriage return before it belongs to the ending;
/// what stands behind it are the lines that follow. Behind the last line feed there is
/// one more line, as it stands, where there is anything.
pub proof fn law_lines_end_at_line_feeds(line: Seq<char>, rest: Seq<char>)
    requires
        !line.contains('\n'),
    ensures
        line.len() > 0 && line.last() == '\r' ==> lines(line + seq!['\n'] + rest) == seq![
            line.drop_last(),
        ] + lines(rest),
        line.len() == 0 || line.last() != '\r' ==> lines(line + seq!['\n'] + rest) == seq![line]
            + lines(rest),
        line.len() > 0 ==> lines(line) == seq![line],
        lines(Seq::empty()).len() == 0,
{
    law_split_at_every_separator(line, rest, '\n');
    law_split_at_every_separator(Seq::empty(), line, '\n');
    law_split_at_every_separator(Seq::empty(), Seq::empty(), '\n');
    let f = |p: Seq<char>| without_return(p);
    let parts = split(rest, '\n');
    let all = split(line + seq!['\n'] + rest, '\n');
    assert(all == seq![line] + parts);
    assert(all.last() == parts.last());
    assert(all.drop_last() =~= seq![line] + parts.drop_last());
    let ended = parts.drop_last().map_values(f);
    assert(all.drop_last().map_values(f) =~= seq![without_return(line)] + ended);
    if parts.last().len() == 0 {
        assert(lines(line + seq!['\n'] + rest) == seq![without_return(line)] + ended);
    } else {
        assert((seq![without_return(line)] + ended).push(parts.last()) =~= seq![
            without_return(line),
        ] + ended.push(parts.last()));
    }
    assert(split(line, '\n') == seq![line]);
    assert(split(line, '\n').drop_last().map_values(f) =~= Seq::<Seq<char>>::empty());
    if line.len() > 0 {
        assert(lines(line) =~= seq![line]);
    }
    let none = Seq::<char>::empty();
    assert(split(none, '\n') == seq![none]);
    assert(split(none, '\n').drop_last().map_values(f) =~= Seq::<Seq<char>>::empty());
}

/// A list of texts says each of them, in order, and an optional text is there exactly where
/// its string is.
pub proof fn law_texts_are_as_they_are(
    list: Seq<String>,
    parts: Seq<Vec<char>>,
    s: String,
    i: int,
)
    ensures
        texts(list).len() == list.len(),
        0 <= i < list.len() ==> texts(list)[i] == list[i]@,
        pieces(parts).len() == parts.len(),
        0 <= i < parts.len() ==> pieces(parts)[i] == parts[i]@,
        text_option(Some(s)) == Some(s@),
        text_option(None) is None,
{
}

} // verus!
