//! How statements are taken apart.
//!
//! A character is at top level where it lies outside string literals and
//! outside brackets.

use vstd::prelude::*;

use crate::text;
use crate::text::Class;

verus! {

/// Whether position `i` is behind an odd number of quotes.
pub open spec fn in_string(s: Seq<char>, i: int) -> bool
    decreases i,
{
    if i <= 0 {
        false
    } else if i <= s.len() && s[i - 1] == '"' {
        !in_string(s, i - 1)
    } else {
        in_string(s, i - 1)
    }
}

/// How many more brackets have opened than closed before position `i`.
pub open spec fn depth(s: Seq<char>, i: int) -> int
    decreases i,
{
    if i <= 0 {
        0
    } else if in_string(s, i - 1) {
        depth(s, i - 1)
    } else if s[i - 1] == '(' {
        depth(s, i - 1) + 1
    } else if s[i - 1] == ')' {
        depth(s, i - 1) - 1
    } else {
        depth(s, i - 1)
    }
}

pub open spec fn top_level(s: Seq<char>, i: int) -> bool {
    !in_string(s, i) && depth(s, i) == 0
}

/// The first `c` at top level at or after `i`.
pub open spec fn first_top_level(s: Seq<char>, c: char, i: int) -> Option<int>
    decreases s.len() - i,
{
    if i < 0 || i >= s.len() {
        None
    } else if s[i] == c && top_level(s, i) {
        Some(i)
    } else {
        first_top_level(s, c, i + 1)
    }
}

/// The text before and behind the first `:` at top level; all of it and
/// nothing where there is none.
pub open spec fn at_colon(s: Seq<char>) -> (Seq<char>, Seq<char>) {
    match first_top_level(s, ':', 0) {
        Some(i) => (s.take(i), s.skip(i + 1)),
        None => (s, Seq::empty()),
    }
}

/// The first `;` outside string literals at or after `i`.
pub open spec fn first_semicolon(s: Seq<char>, i: int) -> Option<int>
    decreases s.len() - i,
{
    if i < 0 || i >= s.len() {
        None
    } else if s[i] == ';' && !in_string(s, i) {
        Some(i)
    } else {
        first_semicolon(s, i + 1)
    }
}

/// The items between the semicolons.
pub open spec fn items(s: Seq<char>) -> Seq<Seq<char>>
    decreases s.len(),
{
    proof {
        lemma_first_semicolon(s, 0);
    }
    match first_semicolon(s, 0) {
        Some(i) => seq![s.take(i)] + items(s.skip(i + 1)),
        None => seq![s],
    }
}

/// Whether the word `word`, in capitals, stands at `i` in either case: not
/// inside a longer word and not inside a string literal.
pub open spec fn word_at(s: Seq<char>, word: Seq<char>, i: int) -> bool {
    &&& 0 <= i
    &&& i + word.len() <= s.len()
    &&& text::uppercase(s.subrange(i, i + word.len())) == word
    &&& (i == 0 || !text::is_alnum(s[i - 1]))
    &&& (i + word.len() == s.len() || !text::is_alnum(s[i + word.len()]))
    &&& !in_string(s, i)
}

/// The first place at or after `i` where the word stands.
pub open spec fn first_word_at(s: Seq<char>, word: Seq<char>, i: int) -> Option<int>
    decreases s.len() + 1 - i,
{
    if i < 0 || i > s.len() {
        None
    } else if word_at(s, word, i) {
        Some(i)
    } else {
        first_word_at(s, word, i + 1)
    }
}

/// The text before and behind the first place where the word stands.
pub open spec fn at_word(s: Seq<char>, word: Seq<char>) -> Option<(Seq<char>, Seq<char>)> {
    match first_word_at(s, word, 0) {
        Some(i) => Some((s.take(i), s.skip(i + word.len()))),
        None => None,
    }
}

/// The text before and behind the first `c`.
pub open spec fn at_char(s: Seq<char>, c: char) -> Option<(Seq<char>, Seq<char>)> {
    match text::index_of(s, c) {
        Some(i) => Some((s.take(i), s.skip(i + 1))),
        None => None,
    }
}

/// The first word and what follows it.
pub open spec fn at_blank(s: Seq<char>) -> (Seq<char>, Seq<char>) {
    let t = text::trim_start(s);
    let n = text::leading(t, Class::Word) as int;
    (t.take(n), text::trim_start(t.skip(n)))
}

/// A name in capitals; nothing where a character cannot be in a name.
pub open spec fn normalised(s: Seq<char>) -> Seq<char> {
    if text::leading(s, Class::Name) == s.len() {
        text::uppercase(s)
    } else {
        Seq::empty()
    }
}

/// A name without the `$` at its end.
pub open spec fn name_body(s: Seq<char>) -> Seq<char> {
    if s.last() == '$' {
        s.drop_last()
    } else {
        s
    }
}

/// A letter, then letters and digits, then at most one `$`.
pub open spec fn valid_name(s: Seq<char>) -> bool {
    &&& s.len() > 0
    &&& text::is_letter(s[0])
    &&& forall|i: int|
        0 <= i < name_body(s).len() ==> text::is_alnum(#[trigger] name_body(s)[i])
}

pub proof fn lemma_first_top_level(s: Seq<char>, c: char, i: int)
    ensures
        first_top_level(s, c, i) matches Some(k) ==> i <= k < s.len() && s[k] == c && top_level(
            s,
            k,
        ),
    decreases s.len() - i,
{
    if 0 <= i < s.len() && !(s[i] == c && top_level(s, i)) {
        lemma_first_top_level(s, c, i + 1);
    }
}

pub proof fn lemma_first_semicolon(s: Seq<char>, i: int)
    ensures
        first_semicolon(s, i) matches Some(k) ==> i <= k < s.len() && s[k] == ';' && !in_string(
            s,
            k,
        ),
    decreases s.len() - i,
{
    if 0 <= i < s.len() && !(s[i] == ';' && !in_string(s, i)) {
        lemma_first_semicolon(s, i + 1);
    }
}

pub proof fn lemma_first_word_at(s: Seq<char>, word: Seq<char>, i: int)
    ensures
        first_word_at(s, word, i) matches Some(k) ==> i <= k && word_at(s, word, k),
    decreases s.len() + 1 - i,
{
    if 0 <= i <= s.len() && !word_at(s, word, i) {
        lemma_first_word_at(s, word, i + 1);
    }
}

/// What follows a position has no say in what is before it.
proof fn lemma_prefix_levels(a: Seq<char>, b: Seq<char>, i: int)
    requires
        i <= a.len(),
    ensures
        in_string(a + b, i) == in_string(a, i),
        depth(a + b, i) == depth(a, i),
    decreases i,
{
    if i > 0 {
        lemma_prefix_levels(a, b, i - 1);
        assert((a + b)[i - 1] == a[i - 1]);
    }
}

/// The first `c` at top level behind a text without one.
pub proof fn lemma_first_behind(a: Seq<char>, b: Seq<char>, c: char, i: int)
    requires
        0 <= i <= a.len(),
        first_top_level(a, c, i) is None,
        top_level(a, a.len() as int),
    ensures
        first_top_level(a + seq![c] + b, c, i) == Some(a.len() as int),
    decreases a.len() - i,
{
    let s = a + seq![c] + b;
    assert(s == a + (seq![c] + b));
    lemma_prefix_levels(a, seq![c] + b, i);
    if i < a.len() {
        assert(s[i] == a[i]);
        lemma_first_behind(a, b, c, i + 1);
    } else {
        assert(s[i] == c);
    }
}

/// A line is split at the colon behind a statement that has none of its own
/// and closes what it opens.
pub proof fn lemma_split_at_colon(a: Seq<char>, b: Seq<char>)
    requires
        first_top_level(a, ':', 0) is None,
        top_level(a, a.len() as int),
    ensures
        at_colon(a + seq![':'] + b) == (a, b),
{
    lemma_first_behind(a, b, ':', 0);
    let s = a + seq![':'] + b;
    assert(s.take(a.len() as int) == a);
    assert(s.skip(a.len() as int + 1) == b);
}

/// The first semicolon behind a text without one.
proof fn lemma_semicolon_behind(a: Seq<char>, b: Seq<char>, i: int)
    requires
        0 <= i <= a.len(),
        first_semicolon(a, i) is None,
        !in_string(a, a.len() as int),
    ensures
        first_semicolon(a + seq![';'] + b, i) == Some(a.len() as int),
    decreases a.len() - i,
{
    let s = a + seq![';'] + b;
    assert(s == a + (seq![';'] + b));
    lemma_prefix_levels(a, seq![';'] + b, i);
    if i < a.len() {
        assert(s[i] == a[i]);
        lemma_semicolon_behind(a, b, i + 1);
    } else {
        assert(s[i] == ';');
    }
}

/// The items of two texts with a semicolon between them, the first without
/// one of its own and with its strings closed.
pub proof fn lemma_items_joined(a: Seq<char>, b: Seq<char>)
    requires
        first_semicolon(a, 0) is None,
        !in_string(a, a.len() as int),
    ensures
        items(a + seq![';'] + b) == seq![a] + items(b),
{
    lemma_semicolon_behind(a, b, 0);
    let s = a + seq![';'] + b;
    assert(s.take(a.len() as int) == a);
    assert(s.skip(a.len() as int + 1) == b);
}

/// Both parts of a line at a colon are no longer than the line, and what
/// follows the colon is shorter.
pub proof fn lemma_at_colon(s: Seq<char>)
    ensures
        at_colon(s).0.len() <= s.len(),
        s.len() > 0 ==> at_colon(s).1.len() < s.len(),
{
    lemma_first_top_level(s, ':', 0);
}

/// The part behind a word is shorter than the text by the word at least.
pub proof fn lemma_at_word(s: Seq<char>, word: Seq<char>)
    ensures
        at_word(s, word) matches Some((a, b)) ==> a.len() + word.len() + b.len() == s.len(),
{
    lemma_first_word_at(s, word, 0);
}

/// The first word and what follows it are no longer than the text.
pub proof fn lemma_at_blank(s: Seq<char>)
    ensures
        at_blank(s).0.len() + at_blank(s).1.len() <= s.len(),
{
    text::lemma_leading_bound(s, Class::Space);
    let t = text::trim_start(s);
    text::lemma_leading_bound(t, Class::Word);
    text::lemma_leading_bound(t.skip(text::leading(t, Class::Word) as int), Class::Space);
}

proof fn lemma_in_string_beyond(s: Seq<char>, i: int)
    requires
        i >= s.len(),
    ensures
        in_string(s, i) == in_string(s, s.len() as int),
    decreases i,
{
    if i > s.len() {
        lemma_in_string_beyond(s, i - 1);
    }
}

/// Whether `pos` is inside a string literal.
pub fn inside_string_literal(s: &[char], pos: usize) -> (r: bool)
    ensures
        r == in_string(s@, pos as int),
{
    let mut inside = false;
    let mut i: usize = 0;
    while i < s.len() && i < pos
        invariant
            i <= s@.len(),
            i <= pos,
            inside == in_string(s@, i as int),
        decreases s@.len() - i,
    {
        if s[i] == '"' {
            inside = !inside;
        }
        i += 1;
    }
    proof {
        if i == s@.len() {
            lemma_in_string_beyond(s@, pos as int);
        }
    }
    inside
}

/// The position of the first `c` at top level.
pub fn find_top_level(s: &[char], c: char) -> (r: Option<usize>)
    ensures
        match r {
            Some(i) => first_top_level(s@, c, 0) == Some(i as int) && i < s@.len(),
            None => first_top_level(s@, c, 0) is None,
        },
{
    let mut level: i128 = 0;
    let mut inside = false;
    let mut i: usize = 0;
    while i < s.len()
        invariant
            i <= s@.len(),
            inside == in_string(s@, i as int),
            level == depth(s@, i as int),
            -(i as int) <= level <= i,
            first_top_level(s@, c, 0) == first_top_level(s@, c, i as int),
        decreases s@.len() - i,
    {
        let d = s[i];
        if d == c && !inside && level == 0 {
            return Some(i);
        }
        if d == '"' {
            inside = !inside;
        } else if !inside {
            if d == '(' {
                level += 1;
            } else if d == ')' {
                level -= 1;
            }
        }
        i += 1;
    }
    None
}

/// The position of the `=` between the two sides of an assignment.
pub fn find_top_level_assignment_eq(s: &[char]) -> (r: Option<usize>)
    ensures
        match r {
            Some(i) => first_top_level(s@, '=', 0) == Some(i as int) && i < s@.len(),
            None => first_top_level(s@, '=', 0) is None,
        },
{
    find_top_level(s, '=')
}

/// The text before and behind the first `:` at top level.
pub fn split_top_level_colon(s: &[char]) -> (r: (&[char], &[char]))
    ensures
        (r.0@, r.1@) == at_colon(s@),
{
    let n = s.len();
    match find_top_level(s, ':') {
        Some(i) => (text::head(s, i), text::tail(s, i + 1)),
        None => (s, text::tail(s, n)),
    }
}

/// The items between the semicolons outside string literals.
pub fn split_print_items(s: &[char]) -> (r: Vec<&[char]>)
    ensures
        r@.map_values(|x: &[char]| x@) == items(s@),
{
    let mut out: Vec<&[char]> = Vec::new();
    let ghost view = |x: &[char]| x@;
    let mut rest = s;
    assert(out@.map_values(view) + items(rest@) == items(s@));
    loop
        invariant
            view == (|x: &[char]| x@),
            out@.map_values(view) + items(rest@) == items(s@),
        decreases rest@.len(),
    {
        let mut inside = false;
        let mut i: usize = 0;
        while i < rest.len() && (inside || rest[i] != ';')
            invariant
                i <= rest@.len(),
                inside == in_string(rest@, i as int),
                first_semicolon(rest@, 0) == first_semicolon(rest@, i as int),
            decreases rest@.len() - i,
        {
            if rest[i] == '"' {
                inside = !inside;
            }
            i += 1;
        }
        let ghost done = out@.map_values(view);
        if i < rest.len() {
            let item = text::head(rest, i);
            let ghost whole = rest@;
            out.push(item);
            rest = text::tail(rest, i + 1);
            proof {
                assert(items(whole) == seq![item@] + items(rest@));
                assert(out@.map_values(view) == done.push(item@));
                assert(done.push(item@) + items(rest@) == done + (seq![item@] + items(rest@)));
            }
        } else {
            out.push(rest);
            proof {
                assert(items(rest@) == seq![rest@]);
                assert(out@.map_values(view) == done + seq![rest@]);
            }
            return out;
        }
    }
}

/// Whether `word` stands at `i`.
fn is_word_at(s: &[char], word: &[char], i: usize) -> (r: bool)
    requires
        i <= s@.len(),
    ensures
        r == word_at(s@, word@, i as int),
{
    let n = s.len();
    let k = word.len();
    if k > n - i {
        return false;
    }
    let mut j: usize = 0;
    while j < k
        invariant
            i + k <= s@.len(),
            k == word@.len(),
            j <= k,
            s@.len() <= usize::MAX,
            forall|m: int| 0 <= m < j ==> text::upper(s@[i + m]) == #[trigger] word@[m],
        decreases k - j,
    {
        if text::to_upper(s[i + j]) != word[j] {
            proof {
                let here = text::uppercase(s@.subrange(i as int, i + k));
                assert(here[j as int] == text::upper(s@[i + j]));
                assert(here != word@);
            }
            return false;
        }
        j += 1;
    }
    assert(text::uppercase(s@.subrange(i as int, i + k)) == word@);
    (i == 0 || !text::alnum(s[i - 1])) && (i + k == n || !text::alnum(s[i + k]))
        && !inside_string_literal(s, i)
}

/// The first place where `word` stands.
pub fn find_word(s: &[char], word: &[char]) -> (r: Option<usize>)
    ensures
        match r {
            Some(i) => first_word_at(s@, word@, 0) == Some(i as int) && i + word@.len()
                <= s@.len(),
            None => first_word_at(s@, word@, 0) is None,
        },
{
    let mut i: usize = 0;
    proof {
        lemma_first_word_at(s@, word@, 0);
    }
    loop
        invariant
            i <= s@.len(),
            first_word_at(s@, word@, 0) == first_word_at(s@, word@, i as int),
        decreases s@.len() - i,
    {
        if is_word_at(s, word, i) {
            return Some(i);
        }
        if i == s.len() {
            assert(first_word_at(s@, word@, i + 1) is None);
            return None;
        }
        i += 1;
    }
}

/// The text before and behind the first place where `kw` stands.
pub fn split_whole_word_ci<'a>(s: &'a [char], kw: &str) -> (r: Option<(&'a [char], &'a [char])>)
    ensures
        match r {
            Some((a, b)) => at_word(s@, text::uppercase(kw@)) == Some((a@, b@)),
            None => at_word(s@, text::uppercase(kw@)) is None,
        },
{
    let word = text::upper_chars(kw);
    let n = s.len();
    match find_word(s, word.as_slice()) {
        Some(i) => {
            assert(i + word@.len() <= n);
            Some((text::head(s, i), text::tail(s, i + word.len())))
        },
        None => None,
    }
}

/// The text before and behind the first `c`.
pub fn split_once<'a>(s: &'a [char], c: char) -> (r: Option<(&'a [char], &'a [char])>)
    ensures
        match r {
            Some((a, b)) => at_char(s@, c) == Some((a@, b@)),
            None => at_char(s@, c) is None,
        },
{
    let n = s.len();
    match text::find(s, c) {
        Some(i) => Some((text::head(s, i), text::tail(s, i + 1))),
        None => None,
    }
}

/// The name at the front and what follows it.
pub fn split_identifier(s: &[char]) -> (r: (&[char], &[char]))
    ensures
        r.0@ == s@.take(text::leading(s@, Class::Name) as int),
        r.1@ == s@.skip(text::leading(s@, Class::Name) as int),
{
    let n = text::count_leading(s, Class::Name);
    (text::head(s, n), text::tail(s, n))
}

/// The digits at the front and what follows them.
pub fn split_leading_number(s: &[char]) -> (r: (&[char], &[char]))
    ensures
        r.0@ == s@.take(text::leading(s@, Class::Digit) as int),
        r.1@ == s@.skip(text::leading(s@, Class::Digit) as int),
        text::leading(r.0@, Class::Digit) == r.0@.len(),
{
    let n = text::count_leading(s, Class::Digit);
    proof {
        text::lemma_leading_take(s@, Class::Digit);
    }
    (text::head(s, n), text::tail(s, n))
}

/// The first word and what follows it.
pub fn split_first_word(s: &[char]) -> (r: (&[char], &[char]))
    ensures
        (r.0@, r.1@) == at_blank(s@),
{
    let t = text::without_leading(s);
    let n = text::count_leading(t, Class::Word);
    (text::head(t, n), text::without_leading(text::tail(t, n)))
}

/// The first word, in capitals.
pub fn first_word_uppercase(s: &[char]) -> (r: String)
    ensures
        r@ == text::uppercase(at_blank(s@).0),
{
    let t = text::without_leading(s);
    let n = text::count_leading(t, Class::Word);
    text::upper_string(text::head(t, n))
}

/// A name in capitals; nothing where a character cannot be in a name.
pub fn normalise_var_name(raw: &[char]) -> (r: String)
    ensures
        r@ == normalised(raw@),
{
    if text::count_leading(raw, Class::Name) == raw.len() {
        text::upper_string(raw)
    } else {
        String::new()
    }
}

/// Whether `name` is a letter, then letters and digits, then at most one `$`.
pub fn is_valid_var_name(name: &str) -> (r: bool)
    ensures
        r == valid_name(name@),
{
    let s = text::chars(name);
    if s.len() == 0 || !text::letter(s[0]) {
        return false;
    }
    let end = if s[s.len() - 1] == '$' {
        s.len() - 1
    } else {
        s.len()
    };
    let ghost body = name_body(s@);
    let mut i: usize = 0;
    while i < end
        invariant
            s@ == name@,
            s@.len() > 0,
            body == name_body(s@),
            end == body.len() <= s@.len(),
            i <= end,
            body == s@.take(end as int),
            forall|j: int| 0 <= j < i ==> text::is_alnum(#[trigger] body[j]),
        decreases end - i,
    {
        if !text::alnum(s[i]) {
            assert(!text::is_alnum(body[i as int]));
            return false;
        }
        assert(body[i as int] == s@[i as int]);
        i += 1;
    }
    true
}

} // verus!
