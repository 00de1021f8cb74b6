//! What holds of texts and of the parts that statements are taken into.

use vstd::prelude::*;

use crate::syntax;
use crate::text;
use crate::text::Class;
use crate::value;

verus! {

/// Trimming takes white space from both ends and nothing else: what is left
/// has none at either end.
pub proof fn lemma_trim(s: Seq<char>)
    ensures
        exists|i: int, j: int|
            {
                &&& 0 <= i <= j <= s.len()
                &&& text::trim(s) == #[trigger] s.subrange(i, j)
                &&& forall|k: int| 0 <= k < i || j <= k < s.len() ==> text::is_space(
                    #[trigger] s[k],
                )
            },
        text::trim(s).len() > 0 ==> !text::is_space(text::trim(s)[0]) && !text::is_space(
            text::trim(s).last(),
        ),
{
    let n = text::leading(s, Class::Space) as int;
    text::lemma_leading_run(s, Class::Space);
    let t = text::trim_start(s);
    assert(t == s.skip(n));
    lemma_trim_end(t);
    let m = text::trim(s).len() as int;
    assert(text::trim(s) == s.subrange(n, n + m));
    assert forall|k: int| 0 <= k < n || n + m <= k < s.len() implies text::is_space(
        #[trigger] s[k],
    ) by {
        if k < n {
            assert(text::in_class(Class::Space, s[k]));
        } else {
            assert(t[k - n] == s[k]);
        }
    }
    if m > 0 {
        assert(text::trim(s)[0] == s[n]);
    }
}

/// Trimming the back takes white space from there and nothing else.
pub proof fn lemma_trim_end(s: Seq<char>)
    ensures
        ({
            let t = text::trim_end(s);
            &&& t.len() <= s.len()
            &&& t == s.take(t.len() as int)
            &&& forall|k: int| t.len() <= k < s.len() ==> text::is_space(#[trigger] s[k])
            &&& t.len() > 0 ==> !text::is_space(t.last())
        }),
    decreases s.len(),
{
    if s.len() > 0 && text::is_space(s.last()) {
        let u = s.drop_last();
        lemma_trim_end(u);
        text::lemma_trailing_bound(u);
        assert(text::trim_end(s) == text::trim_end(u));
        let t = text::trim_end(s);
        assert(t == s.take(t.len() as int));
        assert forall|k: int| t.len() <= k < s.len() implies text::is_space(#[trigger] s[k]) by {
            if k < u.len() {
                assert(u[k] == s[k]);
            }
        }
    } else {
        assert(text::trim_end(s) == s);
    }
}

/// White space is what can be trimmed, and of the ASCII characters that is
/// blank, tab, line feed, vertical tab, form feed and carriage return.
pub proof fn lemma_spaces(c: char)
    requires
        c as u32 <= 127,
    ensures
        text::is_space(c) <==> c as u32 == 32 || 9 <= c as u32 <= 13,
        text::is_blank(c) <==> c as u32 == 32 || c as u32 == 9 || c as u32 == 10 || c as u32 == 12
            || c as u32 == 13,
{
}

/// Capitals: the letters `a` to `z` become `A` to `Z`, and no other character
/// changes.
pub proof fn lemma_uppercase(s: Seq<char>, i: int)
    requires
        0 <= i < s.len(),
    ensures
        text::uppercase(s).len() == s.len(),
        97 <= s[i] as u32 <= 122 ==> text::uppercase(s)[i] as u32 == s[i] as u32 - 32,
        !(97 <= s[i] as u32 <= 122) ==> text::uppercase(s)[i] == s[i],
{
}

/// Where a character first occurs, and where it last does.
pub proof fn lemma_occurrences(s: Seq<char>, c: char)
    ensures
        match text::index_of(s, c) {
            Some(i) => 0 <= i < s.len() && s[i] == c && forall|k: int| 0 <= k < i ==> #[trigger] s[k] != c,
            None => !s.contains(c),
        },
        match text::last_index_of(s, c) {
            Some(i) => 0 <= i < s.len() && s[i] == c && forall|k: int|
                i < k < s.len() ==> #[trigger] s[k] != c,
            None => !s.contains(c),
        },
{
    lemma_first(s, c, 0);
    lemma_last(s, c);
}

proof fn lemma_first(s: Seq<char>, c: char, i: int)
    requires
        0 <= i,
    ensures
        match text::index_from(s, c, i) {
            Some(j) => i <= j < s.len() && s[j] == c && forall|k: int| i <= k < j ==> #[trigger] s[k] != c,
            None => forall|k: int| i <= k < s.len() ==> #[trigger] s[k] != c,
        },
    decreases s.len() - i,
{
    if i < s.len() && s[i] != c {
        lemma_first(s, c, i + 1);
    }
}

proof fn lemma_last(s: Seq<char>, c: char)
    ensures
        match text::last_index_of(s, c) {
            Some(i) => 0 <= i < s.len() && s[i] == c && forall|k: int|
                i < k < s.len() ==> #[trigger] s[k] != c,
            None => forall|k: int| 0 <= k < s.len() ==> #[trigger] s[k] != c,
        },
    decreases s.len(),
{
    if s.len() > 0 && s.last() != c {
        let t = s.drop_last();
        lemma_last(t, c);
        assert forall|k: int| 0 <= k < t.len() implies t[k] == s[k] by {}
        match text::last_index_of(t, c) {
            Some(i) => {
                assert forall|k: int| i < k < s.len() implies #[trigger] s[k] != c by {
                    if k < t.len() {
                        assert(t[k] != c);
                    }
                }
            },
            None => {
                assert forall|k: int| 0 <= k < s.len() implies #[trigger] s[k] != c by {
                    if k < t.len() {
                        assert(t[k] != c);
                    }
                }
            },
        }
    }
}

/// A text is parted at the first `c`: what is before it has none.
pub proof fn lemma_parted(a: Seq<char>, c: char, b: Seq<char>)
    requires
        !a.contains(c),
    ensures
        syntax::at_char(a + seq![c] + b, c) == Some((a, b)),
        syntax::at_char(a, c) is None,
{
    let s = a + seq![c] + b;
    lemma_occurrences(s, c);
    lemma_occurrences(a, c);
    assert(s[a.len() as int] == c);
    let i = text::index_of(s, c)->0;
    if i < a.len() {
        assert(a[i] == s[i]);
    }
    assert(s.take(a.len() as int) == a);
    assert(s.skip(a.len() as int + 1) == b);
}

/// The numeral of a number denotes it: its last digit is what remains when
/// dividing by ten, and the others are the numeral of the quotient. It has no
/// leading zero.
pub proof fn lemma_numeral(n: nat)
    ensures
        text::decimal(n).last() as u32 == 48 + n % 10,
        n < 10 ==> text::decimal(n).len() == 1,
        n >= 10 ==> text::decimal(n).drop_last() == text::decimal(n / 10),
        n > 0 ==> text::decimal(n)[0] != '0',
        text::integer(n as int) == text::decimal(n),
        n > 0 ==> text::integer(-n) == seq!['-'] + text::decimal(n),
    decreases n,
{
    if n >= 10 {
        lemma_numeral(n / 10);
        text::lemma_decimal_roundtrip(n / 10);
        assert(text::decimal(n)[0] == text::decimal(n / 10)[0]);
    }
}

/// A quote opens or closes a string, and nothing else does.
pub proof fn lemma_quotes(s: Seq<char>, i: int)
    requires
        0 <= i < s.len(),
    ensures
        !syntax::in_string(s, 0),
        syntax::in_string(s, i + 1) == (syntax::in_string(s, i) != (s[i] == '"')),
{
}

/// A bracket outside strings leads a level deeper or back, and nothing else
/// does.
pub proof fn lemma_brackets(s: Seq<char>, i: int)
    requires
        0 <= i < s.len(),
    ensures
        syntax::depth(s, 0) == 0,
        syntax::depth(s, i + 1) - syntax::depth(s, i) == (if syntax::in_string(s, i) {
            0int
        } else if s[i] == '(' {
            1
        } else if s[i] == ')' {
            -1
        } else {
            0
        }),
        syntax::top_level(s, i) <==> !syntax::in_string(s, i) && syntax::depth(s, i) == 0,
{
}

/// The first `c` at top level is the first: none before it is at top level.
pub proof fn lemma_first_at_top_level(s: Seq<char>, c: char)
    ensures
        match syntax::first_top_level(s, c, 0) {
            Some(i) => 0 <= i < s.len() && s[i] == c && syntax::top_level(s, i) && forall|k: int|
                0 <= k < i ==> !(#[trigger] s[k] == c && syntax::top_level(s, k)),
            None => forall|k: int|
                0 <= k < s.len() ==> !(#[trigger] s[k] == c && syntax::top_level(s, k)),
        },
{
    lemma_top_level_from(s, c, 0);
}

proof fn lemma_top_level_from(s: Seq<char>, c: char, i: int)
    requires
        0 <= i,
    ensures
        match syntax::first_top_level(s, c, i) {
            Some(j) => i <= j < s.len() && s[j] == c && syntax::top_level(s, j) && forall|k: int|
                i <= k < j ==> !(#[trigger] s[k] == c && syntax::top_level(s, k)),
            None => forall|k: int|
                i <= k < s.len() ==> !(#[trigger] s[k] == c && syntax::top_level(s, k)),
        },
    decreases s.len() - i,
{
    if i < s.len() && !(s[i] == c && syntax::top_level(s, i)) {
        lemma_top_level_from(s, c, i + 1);
    }
}

/// A line is parted at its first colon at top level; a line without one is one
/// statement.
pub proof fn lemma_line_parted(s: Seq<char>)
    ensures
        ({
            let (a, b) = syntax::at_colon(s);
            ||| (s == a + seq![':'] + b && syntax::top_level(s, a.len() as int) && forall|k: int|
                0 <= k < a.len() ==> !(#[trigger] s[k] == ':' && syntax::top_level(s, k)))
            ||| (s == a && b.len() == 0 && forall|k: int|
                0 <= k < s.len() ==> !(#[trigger] s[k] == ':' && syntax::top_level(s, k)))
        }),
{
    lemma_first_at_top_level(s, ':');
    if let Some(i) = syntax::first_top_level(s, ':', 0) {
        let (a, b) = syntax::at_colon(s);
        assert(s == a + seq![':'] + b);
    }
}

/// Texts with a semicolon between each and the next.
pub open spec fn joined(parts: Seq<Seq<char>>) -> Seq<char>
    decreases parts.len(),
{
    if parts.len() == 0 {
        Seq::empty()
    } else if parts.len() == 1 {
        parts[0]
    } else {
        parts[0] + seq![';'] + joined(parts.drop_first())
    }
}

/// Whether a text closes its strings and has no semicolon outside them.
pub open spec fn one_item(s: Seq<char>) -> bool {
    &&& !syntax::in_string(s, s.len() as int)
    &&& forall|k: int| 0 <= k < s.len() ==> !(#[trigger] s[k] == ';' && !syntax::in_string(s, k))
}

/// The items of any number of texts that were joined by semicolons are these
/// texts.
pub proof fn lemma_items_of_joined(parts: Seq<Seq<char>>)
    requires
        parts.len() > 0,
        forall|i: int| 0 <= i < parts.len() ==> one_item(#[trigger] parts[i]),
    ensures
        syntax::items(joined(parts)) == parts,
    decreases parts.len(),
{
    let a = parts[0];
    assert(one_item(a));
    lemma_no_semicolon(a, 0);
    if parts.len() == 1 {
        assert(syntax::items(a) == seq![a]);
        assert(parts == seq![a]);
    } else {
        let rest = parts.drop_first();
        assert forall|i: int| 0 <= i < rest.len() implies one_item(#[trigger] rest[i]) by {
            assert(rest[i] == parts[i + 1]);
        }
        lemma_items_of_joined(rest);
        syntax::lemma_items_joined(a, joined(rest));
        assert(parts == seq![a] + rest);
    }
}

proof fn lemma_no_semicolon(s: Seq<char>, i: int)
    requires
        0 <= i,
        one_item(s),
    ensures
        syntax::first_semicolon(s, i) is None,
    decreases s.len() - i,
{
    if i < s.len() {
        lemma_no_semicolon(s, i + 1);
    }
}

/// Where a text is parted at a word: at its first place outside strings and
/// outside longer words, in either case.
pub proof fn lemma_parted_at_word(s: Seq<char>, word: Seq<char>)
    ensures
        match syntax::at_word(s, word) {
            Some((a, b)) => {
                let i = a.len() as int;
                let m = s.subrange(i, i + word.len());
                &&& s == a + m + b
                &&& m.len() == word.len() && text::uppercase(m) == word
                &&& !syntax::in_string(s, i)
                &&& a.len() > 0 ==> !text::is_alnum(a.last())
                &&& b.len() > 0 ==> !text::is_alnum(b[0])
                &&& forall|k: int| 0 <= k < i ==> !#[trigger] syntax::word_at(s, word, k)
            },
            None => forall|k: int| 0 <= k <= s.len() ==> !#[trigger] syntax::word_at(s, word, k),
        },
{
    lemma_word_from(s, word, 0);
    if let Some((a, b)) = syntax::at_word(s, word) {
        let i = a.len() as int;
        let m = s.subrange(i, i + word.len());
        assert(s == a + m + b);
    }
}

proof fn lemma_word_from(s: Seq<char>, word: Seq<char>, i: int)
    requires
        0 <= i,
    ensures
        match syntax::first_word_at(s, word, i) {
            Some(j) => i <= j && syntax::word_at(s, word, j) && forall|k: int|
                i <= k < j ==> !#[trigger] syntax::word_at(s, word, k),
            None => forall|k: int| i <= k <= s.len() ==> !#[trigger] syntax::word_at(s, word, k),
        },
    decreases s.len() + 1 - i,
{
    if i <= s.len() && !syntax::word_at(s, word, i) {
        lemma_word_from(s, word, i + 1);
    }
}

/// A word stands in a text where its letters do, in either case, with neither
/// letter nor digit next to it and outside strings.
pub proof fn lemma_word_at(a: Seq<char>, m: Seq<char>, b: Seq<char>)
    requires
        !syntax::in_string(a, a.len() as int),
        a.len() > 0 ==> !text::is_alnum(a.last()),
        b.len() > 0 ==> !text::is_alnum(b[0]),
    ensures
        syntax::word_at(a + m + b, text::uppercase(m), a.len() as int),
{
    let s = a + m + b;
    let i = a.len() as int;
    assert(s.subrange(i, i + m.len()) == m);
    lemma_same_quotes(a, m + b, i);
    assert(s == a + (m + b));
    if i > 0 {
        assert(s[i - 1] == a.last());
    }
    if b.len() > 0 {
        assert(s[i + m.len()] == b[0]);
    }
}

proof fn lemma_same_quotes(a: Seq<char>, b: Seq<char>, i: int)
    requires
        i <= a.len(),
    ensures
        syntax::in_string(a + b, i) == syntax::in_string(a, i),
    decreases i,
{
    if i > 0 {
        lemma_same_quotes(a, b, i - 1);
        assert((a + b)[i - 1] == a[i - 1]);
    }
}

/// The first word of a text goes to its first blank, and what follows loses
/// the white space before it.
pub proof fn lemma_first_word(w: Seq<char>, blank: char, rest: Seq<char>)
    requires
        w.len() > 0,
        !text::is_space(w[0]),
        forall|i: int| 0 <= i < w.len() ==> !text::is_blank(#[trigger] w[i]),
        text::is_blank(blank),
    ensures
        syntax::at_blank(w + seq![blank] + rest) == (w, text::trim_start(seq![blank] + rest)),
        syntax::at_blank(w) == (w, Seq::<char>::empty()),
{
    let s = w + seq![blank] + rest;
    let n = w.len();
    assert(s[0] == w[0]);
    text::lemma_leading_is(s, Class::Space, 0);
    assert(text::trim_start(s) == s);
    assert forall|i: int| 0 <= i < n implies text::in_class(Class::Word, #[trigger] s[i]) by {
        assert(s[i] == w[i]);
    }
    assert(s[n as int] == blank);
    text::lemma_leading_is(s, Class::Word, n);
    assert(s.take(n as int) == w);
    assert(s.skip(n as int) == seq![blank] + rest);
    text::lemma_leading_is(w, Class::Space, 0);
    assert(text::trim_start(w) == w);
    assert forall|i: int| 0 <= i < n implies text::in_class(Class::Word, #[trigger] w[i]) by {}
    text::lemma_leading_is(w, Class::Word, n);
    assert(w.take(n as int) == w);
    assert(w.skip(n as int) == Seq::<char>::empty());
}

/// A name is normalised to capitals; a text with another character than
/// letters, digits and `$` is none.
pub proof fn lemma_normalised(s: Seq<char>)
    ensures
        (forall|i: int| 0 <= i < s.len() ==> text::is_alnum(#[trigger] s[i]) || s[i] == '$')
            ==> syntax::normalised(s) == text::uppercase(s),
        (exists|i: int| 0 <= i < s.len() && !text::is_alnum(#[trigger] s[i]) && s[i] != '$')
            ==> syntax::normalised(s).len() == 0,
{
    text::lemma_leading_run(s, Class::Name);
    if forall|i: int| 0 <= i < s.len() ==> text::is_alnum(#[trigger] s[i]) || s[i] == '$' {
        assert forall|i: int| 0 <= i < s.len() implies text::in_class(Class::Name, #[trigger] s[i]) by {
            assert(text::is_alnum(s[i]) || s[i] == '$');
        }
        text::lemma_leading_is(s, Class::Name, s.len());
    }
    if text::leading(s, Class::Name) == s.len() {
        assert forall|i: int| 0 <= i < s.len() implies text::is_alnum(#[trigger] s[i]) || s[i]
            == '$' by {
            assert(text::in_class(Class::Name, s[i]));
        }
    }
}

/// A letter with letters and digits behind it is a name, of a number without
/// a `$` at its end and of a string with one; nothing else is a name.
pub proof fn lemma_names(s: Seq<char>)
    ensures
        (s.len() > 0 && text::is_letter(s[0]) && forall|i: int|
            0 <= i < s.len() ==> text::is_alnum(#[trigger] s[i])) ==> syntax::valid_name(s)
            && !value::names_string(s) && syntax::valid_name(s.push('$')) && value::names_string(
            s.push('$'),
        ),
        syntax::valid_name(s) ==> s.len() > 0 && text::is_letter(s[0]) && forall|i: int|
            0 <= i < s.len() ==> text::is_alnum(#[trigger] s[i]) || (i == s.len() - 1 && s[i] == '$'),
        value::names_string(s) <==> s.len() > 0 && s.last() == '$',
{
    if s.len() > 0 && text::is_letter(s[0]) && forall|i: int|
        0 <= i < s.len() ==> text::is_alnum(#[trigger] s[i]) {
        assert(text::is_alnum(s[s.len() - 1]));
        assert(s.push('$').drop_last() == s);
    }
    if syntax::valid_name(s) {
        assert forall|i: int| 0 <= i < s.len() implies text::is_alnum(#[trigger] s[i]) || (i
            == s.len() - 1 && s[i] == '$') by {
            if i < syntax::name_body(s).len() {
                assert(syntax::name_body(s)[i] == s[i]);
            }
        }
    }
}

/// Letters and digits are those of ASCII.
pub proof fn lemma_letters(c: char)
    ensures
        text::is_letter(c) <==> 65 <= c as u32 <= 90 || 97 <= c as u32 <= 122,
        text::is_digit(c) <==> 48 <= c as u32 <= 57,
        text::is_alnum(c) <==> text::is_letter(c) || text::is_digit(c),
{
}

/// A text begins with another where it is that with something behind it.
pub proof fn lemma_begins(a: Seq<char>, b: Seq<char>, s: Seq<char>)
    ensures
        text::starts_with(a + b, a),
        text::starts_with(s, a) ==> s == a + s.skip(a.len() as int),
{
    assert((a + b).take(a.len() as int) == a);
    if text::starts_with(s, a) {
        assert(s == s.take(a.len() as int) + s.skip(a.len() as int));
    }
}

/// White space beyond ASCII: the next line, the no-break space, the spaces of
/// the general punctuation, the line and paragraph separators, and the Ogham and
/// ideographic spaces.
pub proof fn lemma_wide_spaces(c: char)
    requires
        c as u32 > 127,
    ensures
        text::is_space(c) <==> {
            let n = c as u32;
            ||| n == 0x85 || n == 0xa0 || n == 0x1680
            ||| 0x2000 <= n <= 0x200a
            ||| n == 0x2028 || n == 0x2029 || n == 0x202f || n == 0x205f || n == 0x3000
        },
        !text::is_blank(c),
{
}

} // verus!
