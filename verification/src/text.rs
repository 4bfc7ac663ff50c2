//! Text, character by character.
//!
//! Small-text parsing needs little more than trimming, splitting, comparing and
//! reading whole numbers. Each of these is defined here on sequences of
//! characters, and computed on slices of characters.

use vstd::arithmetic::power::pow;
use vstd::prelude::*;
use vstd::slice::slice_subrange;
use vstd::utf8::{
    decode_utf8, encode_utf8, encode_utf8_decode_utf8, encode_utf8_valid_utf8, valid_utf8,
};

verus! {

/// `String::push` appends the given character to the end of the string.
pub assume_specification[ String::push ](string: &mut String, ch: char)
    ensures
        final(string)@ == old(string)@.push(ch),
;

/// The text that `String::from_utf8_lossy` makes of bytes that are not valid UTF-8.
pub uninterp spec fn utf8_lossy(bytes: Seq<u8>) -> Seq<char>;

/// `String::from_utf8_lossy` decodes UTF-8. Bytes that are valid UTF-8 come out as
/// the text that they encode; in others the invalid stretches are replaced in a way that
/// depends on the bytes alone, which is named here and not spelled out.
#[verifier::external_body]
pub(crate) fn from_utf8_lossy(bytes: &[u8]) -> (s: String)
    ensures
        s@ == if valid_utf8(bytes@) {
            decode_utf8(bytes@)
        } else {
            utf8_lossy(bytes@)
        },
{
    String::from_utf8_lossy(bytes).into_owned()
}

/// The text that the bytes stand for.
pub open spec fn lossy_text(bytes: Seq<u8>) -> Seq<char> {
    if valid_utf8(bytes) {
        decode_utf8(bytes)
    } else {
        utf8_lossy(bytes)
    }
}

/// A text that was turned into bytes stands for itself.
pub proof fn text_is_shown_as_itself(text: Seq<char>)
    ensures
        lossy_text(encode_utf8(text)) == text,
{
    encode_utf8_valid_utf8(text);
    encode_utf8_decode_utf8(text);
}

/// The text of a string with the escapes and quotes that `{:?}` gives it.
pub uninterp spec fn text_debug(s: Seq<char>) -> Seq<char>;

/// `str`'s `Debug` quotes a string and escapes what cannot stand between quotes. What
/// comes out depends on the string alone; it is named here and not spelled out.
#[verifier::external_body]
pub(crate) fn debug_text(s: &str) -> (r: String)
    ensures
        r@ == text_debug(s@),
{
    format!("{s:?}")
}

/// The characters with the Unicode property `White_Space`.
pub open spec fn white(c: char) -> bool {
    let n = c as u32;
    ||| 0x9 <= n <= 0xd
    ||| n == 0x20
    ||| n == 0x85
    ||| n == 0xa0
    ||| n == 0x1680
    ||| 0x2000 <= n <= 0x200a
    ||| n == 0x2028
    ||| n == 0x2029
    ||| n == 0x202f
    ||| n == 0x205f
    ||| n == 0x3000
}

/// The text without leading white space.
pub open spec fn trim_start_of(s: Seq<char>) -> Seq<char>
    decreases s.len(),
{
    if s.len() > 0 && white(s[0]) {
        trim_start_of(s.drop_first())
    } else {
        s
    }
}

/// The text without trailing white space.
pub open spec fn trim_end_of(s: Seq<char>) -> Seq<char>
    decreases s.len(),
{
    if s.len() > 0 && white(s.last()) {
        trim_end_of(s.drop_last())
    } else {
        s
    }
}

/// The text without white space around it.
pub open spec fn trim_of(s: Seq<char>) -> Seq<char> {
    trim_end_of(trim_start_of(s))
}

/// The decimal digits.
pub open spec fn digit(c: char) -> bool {
    '0' <= c <= '9'
}

/// Whether every character is a decimal digit.
pub open spec fn all_digits(s: Seq<char>) -> bool {
    forall|i: int| 0 <= i < s.len() ==> digit(#[trigger] s[i])
}

/// The number that the digits stand for.
pub open spec fn digits_value(s: Seq<char>) -> nat
    decreases s.len(),
{
    if s.len() == 0 {
        0
    } else {
        (10 * digits_value(s.drop_last()) + (s.last() as u32 - '0' as u32)) as nat
    }
}

/// The whole number that the text spells, if it spells one from 0 to `max`: an
/// optional plus sign and at least one digit.
pub open spec fn number_of(s: Seq<char>, max: nat) -> Option<nat> {
    let d = if s.len() > 0 && s[0] == '+' {
        s.drop_first()
    } else {
        s
    };
    if d.len() > 0 && all_digits(d) && digits_value(d) <= max {
        Some(digits_value(d))
    } else {
        None
    }
}

/// The whole number that the text spells, if it spells one that fits 64 bits with
/// a sign.
pub open spec fn signed_number_of(s: Seq<char>) -> Option<int> {
    if s.len() > 0 && s[0] == '-' {
        let d = s.drop_first();
        if d.len() > 0 && all_digits(d) && digits_value(d) <= 0x8000_0000_0000_0000 {
            Some(-digits_value(d))
        } else {
            None
        }
    } else {
        match number_of(s, 0x7fff_ffff_ffff_ffff) {
            Some(n) => Some(n as int),
            None => None,
        }
    }
}

/// How far the first `c` is from the start, or the length without one.
pub open spec fn index_of(s: Seq<char>, c: char) -> nat
    decreases s.len(),
{
    if s.len() == 0 || s[0] == c {
        0
    } else {
        1 + index_of(s.drop_first(), c)
    }
}

/// How many characters there are before the first white space.
pub open spec fn word_len(s: Seq<char>) -> nat
    decreases s.len(),
{
    if s.len() == 0 || white(s[0]) {
        0
    } else {
        1 + word_len(s.drop_first())
    }
}

pub proof fn lemma_index_of(s: Seq<char>, c: char)
    ensures
        index_of(s, c) <= s.len(),
        forall|i: int| 0 <= i < index_of(s, c) ==> s[i] != c,
        index_of(s, c) < s.len() ==> s[index_of(s, c) as int] == c,
    decreases s.len(),
{
    if s.len() > 0 && s[0] != c {
        lemma_index_of(s.drop_first(), c);
        assert forall|i: int| 0 <= i < index_of(s, c) implies s[i] != c by {
            if i > 0 {
                assert(s[i] == s.drop_first()[i - 1]);
            }
        }
    }
}

pub proof fn lemma_word_len(s: Seq<char>)
    ensures
        word_len(s) <= s.len(),
    decreases s.len(),
{
    if s.len() > 0 && !white(s[0]) {
        lemma_word_len(s.drop_first());
    }
}

/// The pieces between the separators; there is one more of them than of those.
pub open spec fn pieces_of(s: Seq<char>, sep: char) -> Seq<Seq<char>>
    decreases s.len(),
{
    let n = index_of(s, sep);
    if n >= s.len() {
        seq![s]
    } else {
        seq![s.take(n as int)] + pieces_of(s.skip(n as int + 1), sep)
    }
}

/// The maximal runs without white space.
pub open spec fn words_of(s: Seq<char>) -> Seq<Seq<char>>
    decreases s.len(),
{
    if s.len() == 0 {
        seq![]
    } else if white(s[0]) {
        words_of(s.drop_first())
    } else {
        proof {
            lemma_word_len(s);
        }
        seq![s.take(word_len(s) as int)] + words_of(s.skip(word_len(s) as int))
    }
}

/// The text without one carriage return at its end.
pub open spec fn without_cr(s: Seq<char>) -> Seq<char> {
    if s.len() > 0 && s.last() == '\r' {
        s.drop_last()
    } else {
        s
    }
}

/// The lines of the text. A line ends with a line feed, with a carriage return
/// before it or without; the last one may lack its end.
pub open spec fn lines_of(s: Seq<char>) -> Seq<Seq<char>>
    decreases s.len(),
{
    let n = index_of(s, '\n');
    if s.len() == 0 {
        seq![]
    } else if n >= s.len() {
        seq![s]
    } else {
        seq![without_cr(s.take(n as int))] + lines_of(s.skip(n as int + 1))
    }
}

/// Where the pattern first occurs.
pub open spec fn find_of(s: Seq<char>, pattern: Seq<char>) -> Option<nat>
    decreases s.len(),
{
    if s.len() < pattern.len() {
        None
    } else if s.take(pattern.len() as int) == pattern {
        Some(0)
    } else if s.len() == 0 {
        None
    } else {
        match find_of(s.drop_first(), pattern) {
            Some(n) => Some(n + 1),
            None => None,
        }
    }
}

/// The texts that the slices hold.
pub open spec fn texts(v: Seq<&[char]>) -> Seq<Seq<char>> {
    Seq::new(v.len(), |i: int| v[i]@)
}

/// The decimal digit for a number below ten.
pub open spec fn digit_char(n: nat) -> char {
    ('0' as u32 + n) as char
}

/// The number in decimal notation.
pub open spec fn decimal(n: nat) -> Seq<char>
    decreases n,
{
    if n < 10 {
        seq![digit_char(n)]
    } else {
        decimal(n / 10).push(digit_char(n % 10))
    }
}

/// The number in decimal notation, filled up with zeros to `width` digits.
pub open spec fn padded(n: nat, width: nat) -> Seq<char> {
    let digits = decimal(n);
    if digits.len() >= width {
        digits
    } else {
        Seq::new((width - digits.len()) as nat, |i: int| '0') + digits
    }
}

/// Whether `s` sorts before `t` at their character `i`, the first that tells them apart.
pub open spec fn sorts_before_at(s: Seq<char>, t: Seq<char>, i: int) -> bool {
    0 <= i <= s.len() && i < t.len() && s.take(i) == t.take(i) && (i == s.len() || s[i] < t[i])
}

/// Whether `s` sorts before `t` in the order of strings.
pub open spec fn sorts_before(s: Seq<char>, t: Seq<char>) -> bool {
    exists|i: int| sorts_before_at(s, t, i)
}

/// The character with an ASCII letter in upper case.
pub open spec fn upper(c: char) -> char {
    if 'a' <= c <= 'z' {
        (c as u32 - 32) as char
    } else {
        c
    }
}

/// The character with an ASCII letter in lower case.
pub open spec fn lower(c: char) -> char {
    if 'A' <= c <= 'Z' {
        (c as u32 + 32) as char
    } else {
        c
    }
}

/// The text in ASCII upper case.
pub open spec fn upper_of(s: Seq<char>) -> Seq<char> {
    Seq::new(s.len(), |i: int| upper(s[i]))
}

/// The text in ASCII lower case.
pub open spec fn lower_of(s: Seq<char>) -> Seq<char> {
    Seq::new(s.len(), |i: int| lower(s[i]))
}

/// An optional number as a mathematical one.
pub open spec fn as_nat(n: Option<u64>) -> Option<nat> {
    match n {
        Some(n) => Some(n as nat),
        None => None,
    }
}

/// A result with its error as text.
pub open spec fn told<T>(r: Result<T, String>) -> Result<T, Seq<char>> {
    match r {
        Ok(v) => Ok(v),
        Err(e) => Err(e@),
    }
}

/// The characters of a string.
pub fn chars_of(s: &str) -> (v: Vec<char>)
    ensures
        v@ == s@,
{
    let mut v: Vec<char> = Vec::new();
    for c in it: s.chars()
        invariant
            it.seq() == s@,
            v@ == it.seq().take(it.index() as int),
    {
        v.push(c);
    }
    v
}

/// Append characters to a string.
pub fn push_chars(out: &mut String, s: &[char])
    ensures
        final(out)@ == old(out)@ + s@,
{
    let mut i: usize = 0;
    while i < s.len()
        invariant
            i <= s.len(),
            out@ == old(out)@ + s@.take(i as int),
        decreases s.len() - i,
    {
        out.push(s[i]);
        i = i + 1;
    }
}

/// The string that the characters make up.
pub fn text_of(s: &[char]) -> (t: String)
    ensures
        t@ == s@,
{
    let mut t = String::new();
    push_chars(&mut t, s);
    t
}

/// Append a string to a string.
pub fn push_text(out: &mut String, s: &str)
    ensures
        final(out)@ == old(out)@ + s@,
{
    out.append(s);
}

/// Whether the two texts are the same.
pub fn same(a: &[char], b: &str) -> (r: bool)
    ensures
        r == (a@ == b@),
{
    let b = chars_of(b);
    same_chars(a, b.as_slice())
}

/// Whether the two texts are the same.
pub fn same_chars(a: &[char], b: &[char]) -> (r: bool)
    ensures
        r == (a@ == b@),
{
    if a.len() != b.len() {
        return false;
    }
    let mut i: usize = 0;
    while i < a.len()
        invariant
            i <= a.len() == b.len(),
            a@.take(i as int) == b@.take(i as int),
        decreases a.len() - i,
    {
        if a[i] != b[i] {
            return false;
        }
        i = i + 1;
        assert(a@.take(i as int) == a@.take(i - 1).push(a@[i - 1]));
        assert(b@.take(i as int) == b@.take(i - 1).push(b@[i - 1]));
    }
    assert(a@ == a@.take(i as int));
    assert(b@ == b@.take(i as int));
    true
}

/// Whether the character is white space.
pub fn is_white(c: char) -> (r: bool)
    ensures
        r == white(c),
{
    let n: u32 = c as u32;
    (0x9 <= n && n <= 0xd) || n == 0x20 || n == 0x85 || n == 0xa0 || n == 0x1680 || (0x2000 <= n
        && n <= 0x200a) || n == 0x2028 || n == 0x2029 || n == 0x202f || n == 0x205f || n == 0x3000
}

/// The text without white space around it.
pub fn trim(s: &[char]) -> (r: &[char])
    ensures
        r@ == trim_of(s@),
{
    let mut i: usize = 0;
    assert(s@.skip(0) == s@);
    while i < s.len() && is_white(s[i])
        invariant
            i <= s.len(),
            trim_start_of(s@) == trim_start_of(s@.skip(i as int)),
        decreases s.len() - i,
    {
        assert(s@.skip(i as int).drop_first() == s@.skip(i + 1));
        i = i + 1;
    }
    let t = slice_subrange(s, i, s.len());
    let mut j: usize = t.len();
    assert(t@ == s@.skip(i as int));
    assert(t@.take(j as int) == t@);
    while j > 0 && is_white(t[j - 1])
        invariant
            j <= t.len(),
            trim_end_of(t@) == trim_end_of(t@.take(j as int)),
        decreases j,
    {
        assert(t@.take(j as int).drop_last() == t@.take(j - 1));
        j = j - 1;
    }
    slice_subrange(t, 0, j)
}

proof fn lemma_digits_value_grows(s: Seq<char>, i: int)
    requires
        all_digits(s),
        0 <= i <= s.len(),
    ensures
        digits_value(s.take(i)) <= digits_value(s),
    decreases s.len() - i,
{
    if i == s.len() {
        assert(s.take(i) == s);
    } else {
        assert(s.take(i + 1).drop_last() == s.take(i));
        assert(digit(s[i]));
        lemma_digits_value_grows(s, i + 1);
    }
}

/// The value of a text of digits alone, if it has one up to `max`.
fn parse_digits(s: &[char], max: u64) -> (r: Option<u64>)
    ensures
        r is Some <==> s@.len() > 0 && all_digits(s@) && digits_value(s@) <= max,
        r matches Some(n) ==> n == digits_value(s@),
{
    if s.len() == 0 {
        return None;
    }
    let mut acc: u64 = 0;
    let mut i: usize = 0;
    while i < s.len()
        invariant
            i <= s.len(),
            all_digits(s@.take(i as int)),
            acc == digits_value(s@.take(i as int)),
            acc <= max,
        decreases s.len() - i,
    {
        let c = s[i];
        assert(s@.take(i + 1).drop_last() == s@.take(i as int));
        if !('0' <= c && c <= '9') {
            assert(!digit(s@[i as int]));
            return None;
        }
        let d: u64 = (c as u32 - '0' as u32) as u64;
        let next: u128 = acc as u128 * 10 + d as u128;
        assert(next == digits_value(s@.take(i + 1)));
        if next > max as u128 {
            proof {
                if all_digits(s@) {
                    lemma_digits_value_grows(s@, i + 1);
                }
            }
            return None;
        }
        acc = next as u64;
        i = i + 1;
        assert forall|k: int| 0 <= k < i implies digit(#[trigger] s@.take(i as int)[k]) by {
            if k < i - 1 {
                assert(digit(s@.take(i - 1)[k]));
            }
        }
    }
    assert(s@.take(i as int) == s@);
    Some(acc)
}

/// The whole number that the text spells, if it spells one from 0 to `max`.
pub fn parse_number(s: &[char], max: u64) -> (r: Option<u64>)
    ensures
        as_nat(r) == number_of(s@, max as nat),
{
    if s.len() > 0 && s[0] == '+' {
        let rest = slice_subrange(s, 1, s.len());
        assert(rest@ == s@.drop_first());
        parse_digits(rest, max)
    } else {
        parse_digits(s, max)
    }
}

/// The 64-bit whole number that the text spells, if it spells one.
pub fn parse_u64(s: &[char]) -> (r: Option<u64>)
    ensures
        as_nat(r) == number_of(s@, u64::MAX as nat),
{
    parse_number(s, u64::MAX)
}

/// The 64-bit number with a sign that the text spells, if it spells one.
pub fn parse_i64(s: &[char]) -> (r: Option<i64>)
    ensures
        r is Some <==> signed_number_of(s@) is Some,
        r matches Some(n) ==> signed_number_of(s@) == Some(n as int),
{
    if s.len() > 0 && s[0] == '-' {
        let rest = slice_subrange(s, 1, s.len());
        assert(rest@ == s@.drop_first());
        match parse_digits(rest, 0x8000_0000_0000_0000) {
            Some(n) => if n == 0x8000_0000_0000_0000 {
                Some(i64::MIN)
            } else {
                Some(-(n as i64))
            },
            None => None,
        }
    } else {
        match parse_number(s, 0x7fff_ffff_ffff_ffff) {
            Some(n) => Some(n as i64),
            None => None,
        }
    }
}

/// The index of the first `c` from `from` on, or the length without one.
fn find_char(s: &[char], from: usize, c: char) -> (n: usize)
    requires
        from <= s@.len(),
    ensures
        from <= n <= s@.len(),
        n - from == index_of(s@.skip(from as int), c),
{
    let mut i: usize = from;
    while i < s.len() && s[i] != c
        invariant
            from <= i <= s@.len(),
            index_of(s@.skip(from as int), c) == i - from + index_of(s@.skip(i as int), c),
        decreases s.len() - i,
    {
        assert(s@.skip(i as int).drop_first() == s@.skip(i + 1));
        i = i + 1;
    }
    i
}

/// The pieces of the text between the separators.
pub fn split(s: &[char], sep: char) -> (v: Vec<&[char]>)
    ensures
        texts(v@) == pieces_of(s@, sep),
{
    let mut v: Vec<&[char]> = Vec::new();
    let mut from: usize = 0;
    assert(s@.skip(0) == s@);
    assert(texts(v@) == Seq::<Seq<char>>::empty());
    assert(texts(v@) + pieces_of(s@, sep) == pieces_of(s@, sep));
    loop
        invariant
            from <= s@.len(),
            pieces_of(s@, sep) == texts(v@) + pieces_of(s@.skip(from as int), sep),
        decreases s@.len() - from,
    {
        let n: usize = find_char(s, from, sep);
        let piece = slice_subrange(s, from, n);
        let ghost rest = s@.skip(from as int);
        let ghost before = texts(v@);
        assert(piece@ == rest.take(n - from));
        v.push(piece);
        assert(texts(v@) == before.push(piece@));
        if n == s.len() {
            assert(piece@ == rest);
            assert(texts(v@) == before + seq![rest]);
            return v;
        }
        from = n + 1;
        assert(rest.skip(index_of(rest, sep) as int + 1) == s@.skip(from as int));
        assert(before + (seq![piece@] + pieces_of(s@.skip(from as int), sep)) == texts(v@)
            + pieces_of(s@.skip(from as int), sep));
    }
}

/// The words of the text: its maximal runs without white space.
pub fn words(s: &[char]) -> (v: Vec<&[char]>)
    ensures
        texts(v@) == words_of(s@),
{
    let mut v: Vec<&[char]> = Vec::new();
    let mut from: usize = 0;
    assert(s@.skip(0) == s@);
    assert(texts(v@) + words_of(s@) == words_of(s@));
    while from < s.len()
        invariant
            from <= s@.len(),
            words_of(s@) == texts(v@) + words_of(s@.skip(from as int)),
        decreases s@.len() - from,
    {
        let ghost rest = s@.skip(from as int);
        if is_white(s[from]) {
            assert(rest.drop_first() == s@.skip(from + 1));
            from = from + 1;
        } else {
            let mut to: usize = from;
            while to < s.len() && !is_white(s[to])
                invariant
                    from <= to <= s@.len(),
                    rest == s@.skip(from as int),
                    word_len(rest) == to - from + word_len(s@.skip(to as int)),
                decreases s@.len() - to,
            {
                assert(s@.skip(to as int).drop_first() == s@.skip(to + 1));
                to = to + 1;
            }
            let word = slice_subrange(s, from, to);
            let ghost before = texts(v@);
            assert(word@ == rest.take(to - from));
            v.push(word);
            assert(texts(v@) == before.push(word@));
            assert(rest.skip(to - from) == s@.skip(to as int));
            assert(before + (seq![word@] + words_of(s@.skip(to as int))) == texts(v@) + words_of(
                s@.skip(to as int),
            ));
            assert(to > from);
            from = to;
        }
    }
    assert(words_of(s@.skip(from as int)) == Seq::<Seq<char>>::empty());
    v
}

/// The lines of the text.
pub fn lines(s: &[char]) -> (v: Vec<&[char]>)
    ensures
        texts(v@) == lines_of(s@),
{
    let mut v: Vec<&[char]> = Vec::new();
    let mut from: usize = 0;
    assert(s@.skip(0) == s@);
    assert(texts(v@) + lines_of(s@) == lines_of(s@));
    while from < s.len()
        invariant
            from <= s@.len(),
            lines_of(s@) == texts(v@) + lines_of(s@.skip(from as int)),
        decreases s@.len() - from,
    {
        let n: usize = find_char(s, from, '\n');
        let ghost rest = s@.skip(from as int);
        let ghost before = texts(v@);
        let to: usize = if n < s.len() && n > from && s[n - 1] == '\r' {
            n - 1
        } else {
            n
        };
        let line = slice_subrange(s, from, to);
        proof {
            lemma_index_of(rest, '\n');
            let whole = rest.take(n - from);
            if n < s.len() {
                if n > from {
                    assert(whole.last() == s@[n - 1]);
                }
                assert(line@ == without_cr(whole));
            } else {
                assert(line@ == rest);
            }
        }
        v.push(line);
        assert(texts(v@) == before.push(line@));
        if n == s.len() {
            assert(texts(v@) == before + seq![rest]);
            return v;
        }
        from = n + 1;
        assert(rest.skip(index_of(rest, '\n') as int + 1) == s@.skip(from as int));
        assert(before + (seq![line@] + lines_of(s@.skip(from as int))) == texts(v@) + lines_of(
            s@.skip(from as int),
        ));
    }
    assert(lines_of(s@.skip(from as int)) == Seq::<Seq<char>>::empty());
    v
}

/// Where the pattern first occurs.
pub fn find(s: &[char], pattern: &[char]) -> (r: Option<usize>)
    ensures
        r is Some <==> find_of(s@, pattern@) is Some,
        r matches Some(n) ==> find_of(s@, pattern@) == Some(n as nat) && n + pattern@.len()
            <= s@.len() && s@.subrange(n as int, n + pattern@.len()) == pattern@,
{
    if s.len() < pattern.len() {
        return None;
    }
    let mut i: usize = 0;
    assert(s@.skip(0) == s@);
    while i <= s.len() - pattern.len()
        invariant
            pattern@.len() <= s@.len(),
            i <= s@.len() - pattern@.len() + 1,
            i <= s@.len(),
            find_of(s@, pattern@) == match find_of(s@.skip(i as int), pattern@) {
                Some(n) => Some((n + i) as nat),
                None => None,
            },
        decreases s@.len() - i,
    {
        let here = slice_subrange(s, i, i + pattern.len());
        assert(here@ == s@.skip(i as int).take(pattern@.len() as int));
        if same_chars(here, pattern) {
            return Some(i);
        }
        if i == s.len() {
            return None;
        }
        assert(s@.skip(i as int).drop_first() == s@.skip(i + 1));
        i = i + 1;
    }
    None
}

/// Append a number in decimal notation.
pub fn push_decimal(out: &mut String, n: u64)
    ensures
        final(out)@ == old(out)@ + decimal(n as nat),
    decreases n,
{
    if n >= 10 {
        push_decimal(out, n / 10);
    }
    let d: u8 = (n % 10) as u8;
    out.push((48 + d) as char);
    proof {
        assert(digit_char(d as nat) == (48 + d) as char);
    }
}

/// A number with a sign in decimal notation.
pub open spec fn signed_decimal(n: int) -> Seq<char> {
    if n < 0 {
        seq!['-'] + decimal((-n) as nat)
    } else {
        decimal(n as nat)
    }
}

/// Append a number with a sign in decimal notation.
pub fn push_signed(out: &mut String, n: i32)
    ensures
        final(out)@ == old(out)@ + signed_decimal(n as int),
{
    if n < 0 {
        out.push('-');
        push_decimal(out, (-(n as i64)) as u64);
    } else {
        push_decimal(out, n as u64);
    }
}

/// `true` or `false`.
pub open spec fn truth(b: bool) -> Seq<char> {
    if b {
        "true"@
    } else {
        "false"@
    }
}

/// Append `true` or `false`.
pub fn push_truth(out: &mut String, b: bool)
    ensures
        final(out)@ == old(out)@ + truth(b),
{
    if b {
        push_text(out, "true");
    } else {
        push_text(out, "false");
    }
}

/// Append a number in decimal notation, filled up with zeros to `width` digits.
pub fn push_padded(out: &mut String, n: u64, width: usize)
    ensures
        final(out)@ == old(out)@ + padded(n as nat, width as nat),
{
    let mut digits = String::new();
    push_decimal(&mut digits, n);
    let digits = chars_of(digits.as_str());
    assert(digits@ == decimal(n as nat));
    let mut i: usize = digits.len();
    while i < width
        invariant
            digits@.len() <= i,
            i <= width || i == digits@.len(),
            out@ == old(out)@ + Seq::new((i - digits@.len()) as nat, |k: int| '0'),
        decreases width - i,
    {
        out.push('0');
        i = i + 1;
    }
    push_chars(out, digits.as_slice());
}

/// What follows texts of one length does not change their order.
pub(crate) proof fn lemma_sorts_before_prefix(
    s: Seq<char>,
    t: Seq<char>,
    after_s: Seq<char>,
    after_t: Seq<char>,
)
    requires
        s.len() == t.len(),
        sorts_before(s, t),
    ensures
        sorts_before(s + after_s, t + after_t),
{
    let i = choose|i: int| sorts_before_at(s, t, i);
    assert((s + after_s).take(i) == s.take(i));
    assert((t + after_t).take(i) == t.take(i));
    assert(sorts_before_at(s + after_s, t + after_t, i));
}

/// Texts with the same beginning are in the order of what follows it.
pub(crate) proof fn lemma_sorts_before_suffix(before: Seq<char>, s: Seq<char>, t: Seq<char>)
    requires
        sorts_before(s, t),
    ensures
        sorts_before(before + s, before + t),
{
    let i = choose|i: int| sorts_before_at(s, t, i);
    assert((before + s).take(before.len() + i) == before + s.take(i));
    assert((before + t).take(before.len() + i) == before + t.take(i));
    assert(sorts_before_at(before + s, before + t, before.len() + i));
}

/// The last digit of a padded number stands behind the padded rest.
proof fn lemma_padded_last(n: nat, width: nat)
    requires
        width >= 2,
    ensures
        padded(n, width) == padded(n / 10, (width - 1) as nat).push(digit_char(n % 10)),
{
    if n < 10 {
        assert(decimal(n) == seq![digit_char(n)]);
        assert(decimal(n / 10) == seq!['0']);
    }
}

/// A number of at most `width` digits is padded to exactly `width`, which spell it.
pub(crate) proof fn lemma_padded(n: nat, width: nat)
    requires
        width >= 1,
        n < pow(10, width),
    ensures
        padded(n, width).len() == width,
        all_digits(padded(n, width)),
        digits_value(padded(n, width)) == n,
    decreases width,
{
    reveal(pow);
    let s = padded(n, width);
    if width == 1 {
        assert(pow(10, 0) == 1);
        assert(s == seq![digit_char(n)]);
        assert(digits_value(s.drop_last()) == 0);
    } else {
        let rest = padded(n / 10, (width - 1) as nat);
        lemma_padded_last(n, width);
        lemma_padded(n / 10, (width - 1) as nat);
        assert(s.drop_last() == rest);
        assert forall|i: int| 0 <= i < s.len() implies digit(#[trigger] s[i]) by {
            if i < rest.len() {
                assert(digit(rest[i]));
            }
        }
    }
}

/// Numbers padded to one width sort in their own order.
pub(crate) proof fn lemma_padded_in_order(n: nat, larger: nat, width: nat)
    requires
        width >= 1,
        n < larger < pow(10, width),
    ensures
        sorts_before(padded(n, width), padded(larger, width)),
    decreases width,
{
    reveal(pow);
    let s = padded(n, width);
    let t = padded(larger, width);
    if width == 1 {
        assert(pow(10, 0) == 1);
        assert(s.take(0) == t.take(0));
        assert(sorts_before_at(s, t, 0));
    } else {
        let rest = (width - 1) as nat;
        let last = seq![digit_char(n % 10)];
        let larger_last = seq![digit_char(larger % 10)];
        lemma_padded_last(n, width);
        lemma_padded_last(larger, width);
        lemma_padded(n / 10, rest);
        lemma_padded(larger / 10, rest);
        assert(s == padded(n / 10, rest) + last);
        assert(t == padded(larger / 10, rest) + larger_last);
        if n / 10 < larger / 10 {
            lemma_padded_in_order(n / 10, larger / 10, rest);
            lemma_sorts_before_prefix(
                padded(n / 10, rest),
                padded(larger / 10, rest),
                last,
                larger_last,
            );
        } else {
            assert(last.take(0) == larger_last.take(0));
            assert(sorts_before_at(last, larger_last, 0));
            lemma_sorts_before_suffix(padded(n / 10, rest), last, larger_last);
        }
    }
}

/// The text in ASCII upper case.
pub fn to_upper(s: &[char]) -> (v: Vec<char>)
    ensures
        v@ == upper_of(s@),
{
    let mut v: Vec<char> = Vec::new();
    let mut i: usize = 0;
    while i < s.len()
        invariant
            i <= s@.len(),
            v@ == upper_of(s@).take(i as int),
        decreases s@.len() - i,
    {
        let c = s[i];
        if 'a' <= c && c <= 'z' {
            v.push((c as u8 - 32) as char);
        } else {
            v.push(c);
        }
        i = i + 1;
    }
    v
}

/// The text in ASCII lower case.
pub fn to_lower(s: &[char]) -> (v: Vec<char>)
    ensures
        v@ == lower_of(s@),
{
    let mut v: Vec<char> = Vec::new();
    let mut i: usize = 0;
    while i < s.len()
        invariant
            i <= s@.len(),
            v@ == lower_of(s@).take(i as int),
        decreases s@.len() - i,
    {
        let c = s[i];
        if 'A' <= c && c <= 'Z' {
            v.push((c as u8 + 32) as char);
        } else {
            v.push(c);
        }
        i = i + 1;
    }
    v
}

/// A number in decimal notation reads as itself.
pub proof fn decimal_reads_back(n: nat, max: nat)
    requires
        n <= max,
    ensures
        number_of(decimal(n), max) == Some(n),
{
    lemma_decimal(n);
    assert(decimal(n)[0] != '+');
}

/// Decimal notation is made of digits that spell the number.
pub proof fn lemma_decimal(n: nat)
    ensures
        decimal(n).len() > 0,
        all_digits(decimal(n)),
        digits_value(decimal(n)) == n,
        digit(decimal(n)[0]),
    decreases n,
{
    if n < 10 {
        reveal_with_fuel(digits_value, 2);
        assert(decimal(n).drop_last() == Seq::<char>::empty());
    } else {
        lemma_decimal(n / 10);
        assert(decimal(n).drop_last() == decimal(n / 10));
    }
}

/// Text without white space at either end is trimmed already.
pub proof fn lemma_trimmed(s: Seq<char>)
    requires
        s.len() > 0 ==> !white(s[0]) && !white(s.last()),
    ensures
        trim_of(s) == s,
{
}

/// Trimming leaves no white space at either end, takes away nothing else, and trimming once
/// is enough.
pub proof fn trimming_takes_away_white_space(s: Seq<char>) -> (r: (int, int))
    ensures
        0 <= r.0 <= r.1 <= s.len(),
        trim_of(s) == s.subrange(r.0, r.1),
        forall|i: int| 0 <= i < r.0 ==> white(#[trigger] s[i]),
        forall|i: int| r.1 <= i < s.len() ==> white(#[trigger] s[i]),
        trim_of(s).len() > 0 ==> !white(trim_of(s)[0]) && !white(trim_of(s).last()),
        trim_of(trim_of(s)) == trim_of(s),
{
    let a = lemma_trim_start(s);
    let t = s.skip(a);
    let b = lemma_trim_end(t);
    assert(t.take(b) == s.subrange(a, a + b));
    assert forall|i: int| a + b <= i < s.len() implies white(#[trigger] s[i]) by {
        assert(s[i] == t[i - a]);
    }
    if b > 0 {
        assert(trim_of(s)[0] == t[0]);
    }
    lemma_trimmed(trim_of(s));
    (a, a + b)
}

proof fn lemma_trim_start(s: Seq<char>) -> (n: int)
    ensures
        0 <= n <= s.len(),
        trim_start_of(s) == s.skip(n),
        forall|i: int| 0 <= i < n ==> white(#[trigger] s[i]),
        n < s.len() ==> !white(s[n]),
    decreases s.len(),
{
    if s.len() > 0 && white(s[0]) {
        let rest = s.drop_first();
        let n = lemma_trim_start(rest);
        assert(rest.skip(n) == s.skip(n + 1));
        assert forall|i: int| 0 <= i < n + 1 implies white(#[trigger] s[i]) by {
            if i > 0 {
                assert(s[i] == rest[i - 1]);
            }
        }
        n + 1
    } else {
        assert(s.skip(0) == s);
        0
    }
}

proof fn lemma_trim_end(s: Seq<char>) -> (n: int)
    ensures
        0 <= n <= s.len(),
        trim_end_of(s) == s.take(n),
        forall|i: int| n <= i < s.len() ==> white(#[trigger] s[i]),
        n > 0 ==> !white(s[n - 1]),
    decreases s.len(),
{
    if s.len() > 0 && white(s.last()) {
        let rest = s.drop_last();
        let n = lemma_trim_end(rest);
        assert(rest.take(n) == s.take(n));
        assert forall|i: int| n <= i < s.len() implies white(#[trigger] s[i]) by {
            if i < rest.len() {
                assert(s[i] == rest[i]);
            }
        }
        n
    } else {
        assert(s.take(s.len() as int) == s);
        s.len() as int
    }
}

/// What reads as a whole number is digits, with a plus sign before them or without, and
/// stands for their value; anything else, and what is too large, reads as none.
pub proof fn only_digits_read_as_numbers(s: Seq<char>, max: nat)
    ensures
        number_of(s, max) matches Some(n) ==> n <= max && s.len() > 0 && (forall|i: int|
            0 < i < s.len() ==> '0' <= #[trigger] s[i] <= '9') && (s[0] == '+' || '0' <= s[0]
            <= '9'),
        s.len() == 0 ==> number_of(s, max) is None,
        forall|i: int|
            0 <= i < s.len() && !('0' <= #[trigger] s[i] <= '9') && (i > 0 || s[i] != '+')
                ==> number_of(s, max) is None,
{
    let d = if s.len() > 0 && s[0] == '+' {
        s.drop_first()
    } else {
        s
    };
    assert forall|i: int|
        0 <= i < s.len() && !('0' <= #[trigger] s[i] <= '9') && (i > 0 || s[i] != '+') implies
        number_of(s, max) is None by {
        if s[0] == '+' {
            assert(d[i - 1] == s[i]);
            assert(!digit(d[i - 1]));
        } else {
            assert(!digit(d[i]));
        }
    }
    if number_of(s, max) is Some {
        assert forall|i: int| 0 < i < s.len() implies '0' <= #[trigger] s[i] <= '9' by {
            if s[0] == '+' {
                assert(digit(d[i - 1]));
            } else {
                assert(digit(d[i]));
            }
        }
        if s[0] != '+' {
            assert(digit(d[0]));
        }
    }
}

/// A number in decimal notation that is too large reads as none.
pub proof fn large_numbers_are_refused(n: nat, max: nat)
    requires
        n > max,
    ensures
        number_of(decimal(n), max) is None,
{
    lemma_decimal(n);
    assert(decimal(n)[0] != '+');
}

/// A signed number reads as itself, within 64 bits; a minus sign counts below zero.
pub proof fn signed_numbers_read_back(n: nat)
    ensures
        n <= 0x7fff_ffff_ffff_ffff ==> signed_number_of(decimal(n)) == Some(n as int),
        n <= 0x8000_0000_0000_0000 ==> signed_number_of(seq!['-'] + decimal(n)) == Some(-(n as int)),
        n > 0x7fff_ffff_ffff_ffff ==> signed_number_of(decimal(n)) is None,
{
    lemma_decimal(n);
    let d = decimal(n);
    assert(d[0] != '-' && d[0] != '+');
    assert((seq!['-'] + d).drop_first() == d);
}

/// The white space between two texts separates their words.
pub proof fn white_space_separates_words(a: Seq<char>, c: char, b: Seq<char>)
    requires
        white(c),
    ensures
        words_of(a + seq![c] + b) == words_of(a) + words_of(b),
    decreases a.len(),
{
    let s = a + seq![c] + b;
    if a.len() == 0 {
        assert(s.drop_first() == b);
        assert(words_of(a) + words_of(b) == words_of(b));
    } else if white(a[0]) {
        assert(s.drop_first() == a.drop_first() + seq![c] + b);
        white_space_separates_words(a.drop_first(), c, b);
    } else {
        lemma_word_len(a);
        lemma_word_len_before(a, c, b);
        let n = word_len(a) as int;
        assert(n > 0);
        assert(s.take(n) == a.take(n));
        assert(s.skip(n) == a.skip(n) + seq![c] + b);
        white_space_separates_words(a.skip(n), c, b);
        assert(seq![a.take(n)] + (words_of(a.skip(n)) + words_of(b)) == (seq![a.take(n)] + words_of(
            a.skip(n),
        )) + words_of(b));
    }
}

proof fn lemma_word_len_before(a: Seq<char>, c: char, b: Seq<char>)
    requires
        white(c),
    ensures
        word_len(a + seq![c] + b) == word_len(a),
    decreases a.len(),
{
    let s = a + seq![c] + b;
    if a.len() > 0 && !white(a[0]) {
        assert(s.drop_first() == a.drop_first() + seq![c] + b);
        lemma_word_len_before(a.drop_first(), c, b);
    }
}

/// A text without white space is one word.
pub proof fn a_word_is_a_word(s: Seq<char>)
    requires
        s.len() > 0,
        forall|i: int| 0 <= i < s.len() ==> !white(#[trigger] s[i]),
    ensures
        words_of(s) == seq![s],
{
    lemma_whole_word(s);
    assert(s.take(s.len() as int) == s);
    assert(s.skip(s.len() as int) == Seq::<char>::empty());
    assert(words_of(Seq::<char>::empty()) == Seq::<Seq<char>>::empty());
    assert(seq![s] + Seq::<Seq<char>>::empty() == seq![s]);
}

proof fn lemma_whole_word(s: Seq<char>)
    requires
        forall|i: int| 0 <= i < s.len() ==> !white(#[trigger] s[i]),
    ensures
        word_len(s) == s.len(),
    decreases s.len(),
{
    if s.len() > 0 {
        let rest = s.drop_first();
        assert forall|i: int| 0 <= i < rest.len() implies !white(#[trigger] rest[i]) by {
            assert(rest[i] == s[i + 1]);
        }
        lemma_whole_word(rest);
    }
}

proof fn lemma_index_before(a: Seq<char>, c: char, b: Seq<char>)
    requires
        !a.contains(c),
    ensures
        index_of(a + seq![c] + b, c) == a.len(),
    decreases a.len(),
{
    let s = a + seq![c] + b;
    if a.len() > 0 {
        assert(a[0] != c);
        let rest = a.drop_first();
        assert forall|i: int| 0 <= i < rest.len() implies rest[i] != c by {
            assert(rest[i] == a[i + 1]);
        }
        assert(s.drop_first() == rest + seq![c] + b);
        lemma_index_before(rest, c, b);
    }
}

/// A line ends at its line feed; the lines behind it are as they would be alone.
pub proof fn line_feeds_end_lines(a: Seq<char>, b: Seq<char>)
    requires
        !a.contains('\n'),
    ensures
        lines_of(a + seq!['\n'] + b) == seq![
            if a.len() > 0 && a.last() == '\r' {
                a.drop_last()
            } else {
                a
            },
        ] + lines_of(b),
{
    let s = a + seq!['\n'] + b;
    lemma_index_before(a, '\n', b);
    assert(s.take(a.len() as int) == a);
    assert(s.skip(a.len() as int + 1) == b);
}

/// A separator splits a text where it stands.
pub proof fn separators_split(a: Seq<char>, sep: char, b: Seq<char>)
    requires
        !a.contains(sep),
    ensures
        pieces_of(a + seq![sep] + b, sep) == seq![a] + pieces_of(b, sep),
        pieces_of(a, sep) == seq![a],
        index_of(a + seq![sep] + b, sep) == a.len(),
{
    let s = a + seq![sep] + b;
    lemma_index_before(a, sep, b);
    assert(s.take(a.len() as int) == a);
    assert(s.skip(a.len() as int + 1) == b);
    lemma_index_of(a, sep);
    if index_of(a, sep) < a.len() {
        assert(a.contains(a[index_of(a, sep) as int]));
    }
}

/// Letters lose only their case: what is no ASCII letter of the other case stays as it is.
pub proof fn case_changes_letters_only(c: char)
    ensures
        !('a' <= c <= 'z') ==> upper(c) == c,
        !('A' <= c <= 'Z') ==> lower(c) == c,
        'a' <= c <= 'z' ==> 'A' <= upper(c) <= 'Z' && lower(upper(c)) == c,
        'A' <= c <= 'Z' ==> 'a' <= lower(c) <= 'z' && upper(lower(c)) == c,
{
}

/// Truth is told in words, and a negative number by a minus sign before its digits.
pub proof fn values_are_told_plainly(n: nat)
    ensures
        truth(true) == "true"@,
        truth(false) == "false"@,
        signed_decimal(n as int) == decimal(n),
        n > 0 ==> signed_decimal(-(n as int)) == seq!['-'] + decimal(n),
{
}

/// A pattern is found where it first occurs, and only if it does.
pub proof fn patterns_are_found_where_they_first_occur(s: Seq<char>, p: Seq<char>)
    ensures
        find_of(s, p) matches Some(n) ==> {
            &&& n + p.len() <= s.len()
            &&& s.subrange(n as int, n as int + p.len()) == p
            &&& forall|i: int|
                0 <= i < n ==> #[trigger] s.subrange(i, i + p.len()) != p
        },
        find_of(s, p) is None ==> forall|i: int|
            0 <= i && i + p.len() <= s.len() ==> #[trigger] s.subrange(i, i + p.len()) != p,
    decreases s.len(),
{
    let k = p.len() as int;
    if s.len() >= k {
        assert(s.take(k) == s.subrange(0, k));
        if s.take(k) != p {
            if s.len() > 0 {
                let rest = s.drop_first();
                patterns_are_found_where_they_first_occur(rest, p);
                assert forall|i: int| 0 <= i && i + k <= s.len() && (i == 0 || rest.subrange(
                    i - 1,
                    i - 1 + k,
                ) != p) implies #[trigger] s.subrange(i, i + k) != p by {
                    if i > 0 {
                        assert(s.subrange(i, i + k) == rest.subrange(i - 1, i - 1 + k));
                    }
                }
                match find_of(rest, p) {
                    Some(n) => {
                        let m = n as int;
                        assert(s.subrange(m + 1, m + 1 + k) == rest.subrange(m, m + k));
                    },
                    None => {},
                }
            } else {
                assert(s.take(k) == p);
            }
        }
    }
}

/// What lies behind the last line feed is a line too, unless it is empty.
pub proof fn the_last_line_may_lack_its_end(s: Seq<char>)
    requires
        !s.contains('\n'),
    ensures
        s.len() > 0 ==> lines_of(s) == seq![s],
        s.len() == 0 ==> lines_of(s).len() == 0,
{
    lemma_index_of(s, '\n');
    if index_of(s, '\n') < s.len() {
        assert(s.contains(s[index_of(s, '\n') as int]));
    }
}

/// Among the ASCII characters white space is the space and the five from tab to carriage
/// return; no letter, digit or punctuation mark is.
pub proof fn ascii_white_space(c: char)
    requires
        c as u32 <= 0x7f,
    ensures
        white(c) <==> c == ' ' || c == '\t' || c == '\n' || c == '\r' || c as u32 == 0xb || c as u32
            == 0xc,
{
}

} // verus!
