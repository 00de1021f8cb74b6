//! Characters, runs of characters and decimal numerals.
//!
//! Source text is handled as slices of characters. Every splitting rule of
//! the language breaks at an ASCII character, so positions are counted in
//! characters throughout.

use vstd::prelude::*;

verus! {

/// `String::push` appends one character to the end of the string.
pub assume_specification[ String::push ](string: &mut String, c: char)
    ensures
        final(string)@ == old(string)@.push(c),
;

/// The text of bytes that are UTF-8, by `core::str::from_utf8`: it is what the
/// bytes decode to, and there is none exactly where they are not valid UTF-8.
#[verifier::external_body]
pub(crate) fn utf8_text(bytes: &[u8]) -> (r: Option<String>)
    ensures
        match r {
            Some(s) => vstd::utf8::valid_utf8(bytes@) && s@ == vstd::utf8::decode_utf8(bytes@),
            None => !vstd::utf8::valid_utf8(bytes@),
        },
{
    match core::str::from_utf8(bytes) {
        Ok(s) => Some(String::from(s)),
        Err(_) => None,
    }
}

/// What `String::from_utf8_lossy` makes of bytes.
pub uninterp spec fn lossy_text(bytes: Seq<u8>) -> Seq<char>;

/// The text that bytes are printed as: what they decode to where they are
/// valid UTF-8, else what `String::from_utf8_lossy` makes of them.
pub open spec fn printable(bytes: Seq<u8>) -> Seq<char> {
    if vstd::utf8::valid_utf8(bytes) {
        vstd::utf8::decode_utf8(bytes)
    } else {
        lossy_text(bytes)
    }
}

/// The text of bytes, by `String::from_utf8_lossy`: what the bytes decode to
/// where they are valid UTF-8, and otherwise a text that depends on the bytes
/// alone.
#[verifier::external_body]
pub(crate) fn utf8_lossy(bytes: &[u8]) -> (r: String)
    ensures
        vstd::utf8::valid_utf8(bytes@) ==> r@ == vstd::utf8::decode_utf8(bytes@),
        !vstd::utf8::valid_utf8(bytes@) ==> r@ == lossy_text(bytes@),
{
    String::from_utf8_lossy(bytes).into_owned()
}

/// The kinds of character that a run can consist of.
#[derive(Clone, Copy, PartialEq, Eq, Structural)]
pub enum Class {
    /// Unicode white space.
    Space,
    /// Anything but ASCII white space.
    Word,
    /// A decimal digit.
    Digit,
    /// A letter, a digit or `$`.
    Name,
}

/// The Unicode `White_Space` property.
pub open spec fn is_space(c: char) -> bool {
    ||| '\u{9}' <= c <= '\u{d}'
    ||| c == ' '
    ||| c == '\u{85}'
    ||| c == '\u{a0}'
    ||| c == '\u{1680}'
    ||| '\u{2000}' <= c <= '\u{200a}'
    ||| c == '\u{2028}'
    ||| c == '\u{2029}'
    ||| c == '\u{202f}'
    ||| c == '\u{205f}'
    ||| c == '\u{3000}'
}

/// ASCII white space: space, tab, line feed, form feed, carriage return.
pub open spec fn is_blank(c: char) -> bool {
    c == ' ' || c == '\t' || c == '\n' || c == '\u{c}' || c == '\r'
}

pub open spec fn is_digit(c: char) -> bool {
    '0' <= c <= '9'
}

/// An ASCII letter.
pub open spec fn is_letter(c: char) -> bool {
    'a' <= c <= 'z' || 'A' <= c <= 'Z'
}

/// An ASCII letter or digit.
pub open spec fn is_alnum(c: char) -> bool {
    is_letter(c) || is_digit(c)
}

/// `c` with an ASCII lower-case letter turned into its capital.
pub open spec fn upper(c: char) -> char {
    if 'a' <= c <= 'z' {
        ((c as u8) - 32) as u8 as char
    } else {
        c
    }
}

/// `s` with every character in capitals.
pub open spec fn uppercase(s: Seq<char>) -> Seq<char> {
    s.map_values(|c: char| upper(c))
}

/// Whether `c` belongs to the class `k`.
pub open spec fn in_class(k: Class, c: char) -> bool {
    match k {
        Class::Space => is_space(c),
        Class::Word => !is_blank(c),
        Class::Digit => is_digit(c),
        Class::Name => is_alnum(c) || c == '$',
    }
}

/// How many characters at the front of `s` belong to `k`.
pub open spec fn leading(s: Seq<char>, k: Class) -> nat
    decreases s.len(),
{
    if s.len() > 0 && in_class(k, s[0]) {
        1 + leading(s.drop_first(), k)
    } else {
        0
    }
}

/// How many characters at the back of `s` are white space.
pub open spec fn trailing_spaces(s: Seq<char>) -> nat
    decreases s.len(),
{
    if s.len() > 0 && is_space(s.last()) {
        1 + trailing_spaces(s.drop_last())
    } else {
        0
    }
}

/// `s` without the white space at its front.
pub open spec fn trim_start(s: Seq<char>) -> Seq<char> {
    s.skip(leading(s, Class::Space) as int)
}

/// `s` without the white space at its back.
pub open spec fn trim_end(s: Seq<char>) -> Seq<char> {
    s.take(s.len() - trailing_spaces(s))
}

/// `s` without the white space at either end.
pub open spec fn trim(s: Seq<char>) -> Seq<char> {
    trim_end(trim_start(s))
}

/// The position of the first `c` at or after `i`.
pub open spec fn index_from(s: Seq<char>, c: char, i: int) -> Option<int>
    decreases s.len() - i,
{
    if i < 0 || i >= s.len() {
        None
    } else if s[i] == c {
        Some(i)
    } else {
        index_from(s, c, i + 1)
    }
}

/// The position of the first `c` in `s`.
pub open spec fn index_of(s: Seq<char>, c: char) -> Option<int> {
    index_from(s, c, 0)
}

/// The position of the last `c` in `s`.
pub open spec fn last_index_of(s: Seq<char>, c: char) -> Option<int>
    decreases s.len(),
{
    if s.len() == 0 {
        None
    } else if s.last() == c {
        Some(s.len() - 1)
    } else {
        last_index_of(s.drop_last(), c)
    }
}

/// Whether `s` begins with `prefix`.
pub open spec fn starts_with(s: Seq<char>, prefix: Seq<char>) -> bool {
    prefix.len() <= s.len() && s.take(prefix.len() as int) == prefix
}

/// The decimal digit with value `d`.
pub open spec fn digit(d: nat) -> char {
    (48 + d) as u8 as char
}

/// The value of a decimal digit.
pub open spec fn digit_value(c: char) -> nat {
    (c as u8 - 48) as nat
}

/// The decimal numeral of `n`, without leading zeros.
pub open spec fn decimal(n: nat) -> Seq<char>
    decreases n,
{
    if n < 10 {
        seq![digit(n)]
    } else {
        decimal(n / 10).push(digit(n % 10))
    }
}

/// The decimal numeral of `n`, with a `-` where it is negative.
pub open spec fn integer(n: int) -> Seq<char> {
    if n < 0 {
        seq!['-'] + decimal((-n) as nat)
    } else {
        decimal(n as nat)
    }
}

/// The number that a run of decimal digits denotes.
pub open spec fn decimal_value(s: Seq<char>) -> nat
    decreases s.len(),
{
    if s.len() == 0 {
        0
    } else {
        10 * decimal_value(s.drop_last()) + digit_value(s.last())
    }
}

pub proof fn lemma_leading_bound(s: Seq<char>, k: Class)
    ensures
        leading(s, k) <= s.len(),
    decreases s.len(),
{
    if s.len() > 0 && in_class(k, s[0]) {
        lemma_leading_bound(s.drop_first(), k);
    }
}

/// What `leading` counts: a run of `k`, ended by another character or by the
/// end of the text.
pub proof fn lemma_leading_run(s: Seq<char>, k: Class)
    ensures
        leading(s, k) <= s.len(),
        forall|i: int| 0 <= i < leading(s, k) ==> in_class(k, #[trigger] s[i]),
        leading(s, k) < s.len() ==> !in_class(k, s[leading(s, k) as int]),
    decreases s.len(),
{
    if s.len() > 0 && in_class(k, s[0]) {
        let t = s.drop_first();
        lemma_leading_run(t, k);
        assert forall|i: int| 0 <= i < leading(s, k) implies in_class(k, #[trigger] s[i]) by {
            if i > 0 {
                assert(s[i] == t[i - 1]);
            }
        }
        if leading(s, k) < s.len() {
            assert(s[leading(s, k) as int] == t[leading(t, k) as int]);
        }
    }
}

/// A run of `n` characters of `k` that ends there is what `leading` counts.
pub proof fn lemma_leading_is(s: Seq<char>, k: Class, n: nat)
    requires
        n <= s.len(),
        forall|i: int| 0 <= i < n ==> in_class(k, #[trigger] s[i]),
        n < s.len() ==> !in_class(k, s[n as int]),
    ensures
        leading(s, k) == n,
    decreases s.len(),
{
    if n > 0 {
        let t = s.drop_first();
        assert forall|i: int| 0 <= i < n - 1 implies in_class(k, #[trigger] t[i]) by {
            assert(t[i] == s[i + 1]);
        }
        assert(in_class(k, s[0]));
        if n < s.len() {
            assert(t[n - 1] == s[n as int]);
        }
        lemma_leading_is(t, k, (n - 1) as nat);
    }
}

/// The run at the front, taken alone, is a run to its end.
pub proof fn lemma_leading_take(s: Seq<char>, k: Class)
    ensures
        leading(s, k) <= s.len(),
        leading(s.take(leading(s, k) as int), k) == leading(s, k),
{
    lemma_leading_run(s, k);
    let t = s.take(leading(s, k) as int);
    assert forall|i: int| 0 <= i < t.len() implies in_class(k, #[trigger] t[i]) by {
        assert(t[i] == s[i]);
    }
    lemma_leading_is(t, k, t.len());
}

pub proof fn lemma_trailing_bound(s: Seq<char>)
    ensures
        trailing_spaces(s) <= s.len(),
    decreases s.len(),
{
    if s.len() > 0 && is_space(s.last()) {
        lemma_trailing_bound(s.drop_last());
    }
}

proof fn lemma_index_from(s: Seq<char>, c: char, i: int)
    ensures
        index_from(s, c, i) matches Some(k) ==> i <= k < s.len() && s[k] == c,
    decreases s.len() - i,
{
    if 0 <= i < s.len() && s[i] != c {
        lemma_index_from(s, c, i + 1);
    }
}

/// `index_of` is what its name says.
pub proof fn lemma_index_of(s: Seq<char>, c: char)
    ensures
        index_of(s, c) matches Some(k) ==> 0 <= k < s.len() && s[k] == c,
{
    lemma_index_from(s, c, 0);
}

/// Trimming never lengthens a text.
pub proof fn lemma_trim_len(s: Seq<char>)
    ensures
        trim_start(s).len() <= s.len(),
        trim_end(s).len() <= s.len(),
        trim(s).len() <= s.len(),
{
    lemma_leading_bound(s, Class::Space);
    lemma_trailing_bound(s);
    lemma_trailing_bound(trim_start(s));
}

/// What is more than white space is so when trimmed at its back.
pub proof fn lemma_trimmed_end(s: Seq<char>)
    requires
        trim(s).len() > 0,
    ensures
        trim_end(s).len() > 0,
{
    lemma_leading_run(s, Class::Space);
    let n = leading(s, Class::Space) as int;
    lemma_trailing_run(s);
    if trim_end(s).len() == 0 {
        assert(n < s.len());
        assert(is_space(s[n]));
    }
}

/// The white space at the back of a text is white space.
proof fn lemma_trailing_run(s: Seq<char>)
    ensures
        trailing_spaces(s) <= s.len(),
        forall|i: int| s.len() - trailing_spaces(s) <= i < s.len() ==> is_space(#[trigger] s[i]),
    decreases s.len(),
{
    if s.len() > 0 && is_space(s.last()) {
        let t = s.drop_last();
        lemma_trailing_run(t);
        assert forall|i: int| s.len() - trailing_spaces(s) <= i < s.len() implies is_space(
            #[trigger] s[i],
        ) by {
            if i < t.len() {
                assert(s[i] == t[i]);
            }
        }
    }
}

/// Whether `c` belongs to the class `k`.
pub fn is_in_class(k: Class, c: char) -> (r: bool)
    ensures
        r == in_class(k, c),
{
    match k {
        Class::Space => ('\u{9}' <= c && c <= '\u{d}') || c == ' ' || c == '\u{85}' || c
            == '\u{a0}' || c == '\u{1680}' || ('\u{2000}' <= c && c <= '\u{200a}') || c
            == '\u{2028}' || c == '\u{2029}' || c == '\u{202f}' || c == '\u{205f}' || c
            == '\u{3000}',
        Class::Word => !blank(c),
        Class::Digit => '0' <= c && c <= '9',
        Class::Name => alnum(c) || c == '$',
    }
}

/// Whether `c` is ASCII white space.
pub fn blank(c: char) -> (r: bool)
    ensures
        r == is_blank(c),
{
    c == ' ' || c == '\t' || c == '\n' || c == '\u{c}' || c == '\r'
}

/// Whether `c` is an ASCII letter.
pub fn letter(c: char) -> (r: bool)
    ensures
        r == is_letter(c),
{
    ('a' <= c && c <= 'z') || ('A' <= c && c <= 'Z')
}

/// Whether `c` is an ASCII letter or digit.
pub fn alnum(c: char) -> (r: bool)
    ensures
        r == is_alnum(c),
{
    letter(c) || ('0' <= c && c <= '9')
}

/// The capital of `c`.
pub fn to_upper(c: char) -> (r: char)
    ensures
        r == upper(c),
{
    if 'a' <= c && c <= 'z' {
        (c as u8 - 32) as char
    } else {
        c
    }
}

/// The characters of a string.
pub fn chars(s: &str) -> (r: Vec<char>)
    ensures
        r@ == s@,
{
    let mut r: Vec<char> = Vec::new();
    for c in it: s.chars()
        invariant
            r@ == it.seq().take(it.index() as int),
            it.seq() == s@,
    {
        r.push(c);
    }
    r
}

/// The string with the characters `s`.
pub fn string(s: &[char]) -> (r: String)
    ensures
        r@ == s@,
{
    let mut r = String::new();
    let mut i: usize = 0;
    while i < s.len()
        invariant
            i <= s@.len(),
            r@ == s@.take(i as int),
        decreases s@.len() - i,
    {
        r.push(s[i]);
        i += 1;
    }
    assert(s@.take(s@.len() as int) == s@);
    r
}

/// The string with the characters `s`, in capitals.
pub fn upper_string(s: &[char]) -> (r: String)
    ensures
        r@ == uppercase(s@),
{
    let mut r = String::new();
    let mut i: usize = 0;
    while i < s.len()
        invariant
            i <= s@.len(),
            r@ == uppercase(s@.take(i as int)),
        decreases s@.len() - i,
    {
        r.push(to_upper(s[i]));
        i += 1;
        assert(uppercase(s@.take(i as int)) == uppercase(s@.take(i - 1)).push(
            upper(s@[i - 1]),
        ));
    }
    assert(s@.take(s@.len() as int) == s@);
    r
}

/// The characters of a string, in capitals.
pub fn upper_chars(s: &str) -> (r: Vec<char>)
    ensures
        r@ == uppercase(s@),
{
    let mut r: Vec<char> = Vec::new();
    for c in it: s.chars()
        invariant
            r@ == uppercase(it.seq().take(it.index() as int)),
            it.seq() == s@,
    {
        r.push(to_upper(c));
        assert(uppercase(s@.take(it.index() + 1)) == uppercase(s@.take(it.index() as int)).push(
            upper(c),
        ));
    }
    assert(s@.take(s@.len() as int) == s@);
    r
}

/// A copy of the characters `s`.
pub fn copy(s: &[char]) -> (r: Vec<char>)
    ensures
        r@ == s@,
{
    let mut r: Vec<char> = Vec::new();
    let mut i: usize = 0;
    while i < s.len()
        invariant
            i <= s@.len(),
            r@ == s@.take(i as int),
        decreases s@.len() - i,
    {
        r.push(s[i]);
        i += 1;
    }
    assert(s@.take(s@.len() as int) == s@);
    r
}

/// Whether two strings have the same characters.
pub fn same(a: &str, b: &str) -> (r: bool)
    ensures
        r == (a@ == b@),
{
    let x = a.as_bytes();
    let y = b.as_bytes();
    proof {
        vstd::utf8::encode_utf8_decode_utf8(a@);
        vstd::utf8::encode_utf8_decode_utf8(b@);
    }
    if x.len() != y.len() {
        return false;
    }
    let mut i: usize = 0;
    while i < x.len()
        invariant
            i <= x@.len(),
            x@.len() == y@.len(),
            x@ == vstd::utf8::encode_utf8(a@),
            y@ == vstd::utf8::encode_utf8(b@),
            forall|j: int| 0 <= j < i ==> x@[j] == y@[j],
        decreases x@.len() - i,
    {
        if x[i] != y[i] {
            return false;
        }
        i += 1;
    }
    assert(x@ == y@);
    true
}

/// How many characters at the front of `s` belong to `k`.
pub fn count_leading(s: &[char], k: Class) -> (r: usize)
    ensures
        r == leading(s@, k),
        r <= s@.len(),
{
    let mut i: usize = 0;
    while i < s.len() && is_in_class(k, s[i])
        invariant
            i <= s@.len(),
            forall|j: int| 0 <= j < i ==> in_class(k, #[trigger] s@[j]),
        decreases s@.len() - i,
    {
        i += 1;
    }
    proof {
        lemma_leading_is(s@, k, i as nat);
    }
    i
}

/// The characters of `s` from `i` on.
pub fn tail(s: &[char], i: usize) -> (r: &[char])
    requires
        i <= s@.len(),
    ensures
        r@ == s@.skip(i as int),
{
    let n = s.len();
    vstd::slice::slice_subrange(s, i, n)
}

/// The first `i` characters of `s`.
pub fn head(s: &[char], i: usize) -> (r: &[char])
    requires
        i <= s@.len(),
    ensures
        r@ == s@.take(i as int),
{
    vstd::slice::slice_subrange(s, 0, i)
}

/// `s` without the white space at its front.
pub fn without_leading(s: &[char]) -> (r: &[char])
    ensures
        r@ == trim_start(s@),
        r@.len() <= s@.len(),
{
    let i = count_leading(s, Class::Space);
    tail(s, i)
}

/// `s` without the white space at its back.
pub fn without_trailing(s: &[char]) -> (r: &[char])
    ensures
        r@ == trim_end(s@),
        r@.len() <= s@.len(),
{
    let mut n = s.len();
    assert(s@.take(n as int) == s@);
    while n > 0 && is_in_class(Class::Space, s[n - 1])
        invariant
            n <= s@.len(),
            s@.len() - trailing_spaces(s@) == n - trailing_spaces(s@.take(n as int)),
        decreases n,
    {
        assert(s@.take(n as int).drop_last() == s@.take(n - 1));
        n -= 1;
    }
    head(s, n)
}

/// `s` without the white space at either end.
pub fn trimmed(s: &[char]) -> (r: &[char])
    ensures
        r@ == trim(s@),
        r@.len() <= s@.len(),
{
    without_trailing(without_leading(s))
}

/// The position of the first `c` in `s`.
pub fn find(s: &[char], c: char) -> (r: Option<usize>)
    ensures
        match r {
            Some(i) => index_of(s@, c) == Some(i as int) && i < s@.len() && s@[i as int] == c,
            None => index_of(s@, c) is None,
        },
{
    let mut i: usize = 0;
    while i < s.len()
        invariant
            i <= s@.len(),
            index_of(s@, c) == index_from(s@, c, i as int),
        decreases s@.len() - i,
    {
        if s[i] == c {
            return Some(i);
        }
        i += 1;
    }
    None
}

/// The position of the last `c` in `s`.
pub fn rfind(s: &[char], c: char) -> (r: Option<usize>)
    ensures
        match r {
            Some(i) => last_index_of(s@, c) == Some(i as int) && i < s@.len() && s@[i as int] == c,
            None => last_index_of(s@, c) is None,
        },
{
    let mut n = s.len();
    assert(s@.take(n as int) == s@);
    while n > 0
        invariant
            n <= s@.len(),
            last_index_of(s@, c) == last_index_of(s@.take(n as int), c),
        decreases n,
    {
        assert(s@.take(n as int).last() == s@[n - 1]);
        assert(s@.take(n as int).drop_last() == s@.take(n - 1));
        if s[n - 1] == c {
            return Some(n - 1);
        }
        n -= 1;
    }
    None
}

/// Whether `s` in capitals begins with `prefix`.
pub fn upper_starts_with(s: &[char], prefix: &str) -> (r: bool)
    ensures
        r == starts_with(uppercase(s@), prefix@),
{
    let p = chars(prefix);
    if p.len() > s.len() {
        return false;
    }
    let mut i: usize = 0;
    while i < p.len()
        invariant
            p@ == prefix@,
            i <= p@.len() <= s@.len(),
            forall|j: int| 0 <= j < i ==> upper(s@[j]) == p@[j],
        decreases p@.len() - i,
    {
        if to_upper(s[i]) != p[i] {
            assert(uppercase(s@).take(p@.len() as int)[i as int] != p@[i as int]);
            return false;
        }
        i += 1;
    }
    assert(uppercase(s@).take(p@.len() as int) == p@);
    true
}

/// Append the decimal numeral of `n`.
pub fn push_decimal(out: &mut String, n: u64)
    ensures
        final(out)@ == old(out)@ + decimal(n as nat),
    decreases n,
{
    if n >= 10 {
        push_decimal(out, n / 10);
    }
    let d = (n % 10) as u8;
    out.push((48 + d) as char);
    assert(out@ == old(out)@ + decimal(n as nat));
}

/// Append the decimal numeral of `n`.
pub fn push_integer(out: &mut String, n: i32)
    ensures
        final(out)@ == old(out)@ + integer(n as int),
{
    if n < 0 {
        out.push('-');
        push_decimal(out, (-(n as i64)) as u64);
        assert(out@ == old(out)@ + integer(n as int));
    } else {
        push_decimal(out, n as u64);
    }
}

proof fn lemma_decimal_value_push(s: Seq<char>, c: char)
    ensures
        decimal_value(s.push(c)) == 10 * decimal_value(s) + digit_value(c),
{
    assert(s.push(c).drop_last() == s);
}

/// A shorter run of digits denotes a number no larger.
proof fn lemma_decimal_value_grows(s: Seq<char>, n: int)
    requires
        0 <= n <= s.len(),
    ensures
        decimal_value(s.take(n)) <= decimal_value(s),
    decreases s.len() - n,
{
    if n < s.len() {
        lemma_decimal_value_grows(s, n + 1);
        assert(s.take(n + 1).drop_last() == s.take(n));
    } else {
        assert(s.take(n) == s);
    }
}

/// Reading back the numeral of `n` gives `n`.
pub proof fn lemma_decimal_roundtrip(n: nat)
    ensures
        decimal_value(decimal(n)) == n,
        decimal(n).len() > 0,
        leading(decimal(n), Class::Digit) == decimal(n).len(),
    decreases n,
{
    if n < 10 {
        assert(decimal(n) == Seq::<char>::empty().push(digit(n)));
        lemma_decimal_value_push(Seq::<char>::empty(), digit(n));
        assert(digit_value(digit(n)) == n);
    } else {
        lemma_decimal_roundtrip(n / 10);
        lemma_decimal_value_push(decimal(n / 10), digit(n % 10));
        assert(digit_value(digit(n % 10)) == n % 10);
    }
    lemma_leading_run(decimal(n), Class::Digit);
    assert forall|i: int| 0 <= i < decimal(n).len() implies in_class(
        Class::Digit,
        #[trigger] decimal(n)[i],
    ) by {
        if n >= 10 {
            lemma_leading_run(decimal(n / 10), Class::Digit);
            if i < decimal(n / 10).len() {
                assert(decimal(n)[i] == decimal(n / 10)[i]);
            }
        }
    }
}

/// The number that the digits `s` denote, where it fits in sixteen bits.
pub fn parse_u16(s: &[char]) -> (r: Option<u16>)
    requires
        leading(s@, Class::Digit) == s@.len(),
    ensures
        match r {
            Some(n) => s@.len() > 0 && decimal_value(s@) == n,
            None => s@.len() == 0 || decimal_value(s@) > u16::MAX,
        },
{
    if s.len() == 0 {
        return None;
    }
    proof {
        lemma_leading_run(s@, Class::Digit);
    }
    let mut n: u32 = 0;
    let mut i: usize = 0;
    while i < s.len()
        invariant
            0 < s@.len(),
            i <= s@.len(),
            n == decimal_value(s@.take(i as int)),
            n <= u16::MAX,
            forall|j: int| 0 <= j < s@.len() ==> in_class(Class::Digit, #[trigger] s@[j]),
        decreases s@.len() - i,
    {
        let c = s[i];
        assert(in_class(Class::Digit, s@[i as int]));
        n = 10 * n + (c as u8 - 48) as u32;
        i += 1;
        assert(s@.take(i as int).drop_last() == s@.take(i - 1));
        if n > 65535 {
            proof {
                lemma_decimal_value_grows(s@, i as int);
            }
            return None;
        }
    }
    assert(s@.take(s@.len() as int) == s@);
    Some(n as u16)
}

} // verus!
