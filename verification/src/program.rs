//! The stored program: line numbers with the text of each line.

use vstd::prelude::*;

use crate::text;

verus! {

/// A stored program.
pub struct Program {
    /// The lines in ascending order of their numbers.
    lines: Vec<(u16, String)>,
}

/// What a program stands for: the text of each line number in use.
pub type Listing = Map<u16, Seq<char>>;

/// The listing of a sequence of lines; a later line replaces an earlier one
/// of its number.
pub open spec fn listing(lines: Seq<(u16, String)>) -> Listing
    decreases lines.len(),
{
    if lines.len() == 0 {
        Map::empty()
    } else {
        listing(lines.drop_last()).insert(lines.last().0, lines.last().1@)
    }
}

/// The smallest line number in use at or above `n`.
pub open spec fn next_line(m: Listing, n: int) -> Option<u16>
    decreases 65536 - n,
{
    if n < 0 || n > 65535 {
        None
    } else if m.contains_key(n as u16) {
        Some(n as u16)
    } else {
        next_line(m, n + 1)
    }
}

/// `next_line` is what its name says.
pub proof fn lemma_next_line(m: Listing, n: int)
    requires
        0 <= n,
    ensures
        match next_line(m, n) {
            Some(k) => n <= k && m.contains_key(k) && forall|j: u16| #[trigger]
                m.contains_key(j) && n <= j ==> k <= j,
            None => forall|j: u16| #[trigger] m.contains_key(j) ==> j < n,
        },
    decreases 65536 - n,
{
    if n <= 65535 && !m.contains_key(n as u16) {
        lemma_next_line(m, n + 1);
    }
}

/// The lines numbered `n` and above, in ascending order.
pub open spec fn lines_from(m: Listing, n: int) -> Seq<(u16, Seq<char>)>
    decreases 65536 - n,
{
    if n < 0 {
        Seq::empty()
    } else {
        proof {
            lemma_next_line(m, n);
        }
        match next_line(m, n) {
            Some(k) => seq![(k, m[k])] + lines_from(m, k + 1),
            None => Seq::empty(),
        }
    }
}

/// The line numbers go up.
pub open spec fn ascending(lines: Seq<(u16, String)>) -> bool {
    forall|i: int, j: int| 0 <= i < j < lines.len() ==> #[trigger] lines[i].0 < #[trigger] lines[j].0
}

/// The listing of ascending lines has just these lines.
proof fn lemma_listing(lines: Seq<(u16, String)>)
    requires
        ascending(lines),
    ensures
        forall|i: int|
            0 <= i < lines.len() ==> listing(lines).contains_key((#[trigger] lines[i]).0) && listing(
                lines,
            )[lines[i].0] == lines[i].1@,
        forall|k: u16| #[trigger]
            listing(lines).contains_key(k) ==> exists|i: int|
                0 <= i < lines.len() && (#[trigger] lines[i]).0 == k,
    decreases lines.len(),
{
    if lines.len() > 0 {
        let rest = lines.drop_last();
        lemma_listing(rest);
        assert forall|i: int| 0 <= i < lines.len() implies listing(lines).contains_key(
            (#[trigger] lines[i]).0,
        ) && listing(lines)[lines[i].0] == lines[i].1@ by {
            if i < rest.len() {
                assert(rest[i] == lines[i]);
            }
        }
        assert forall|k: u16| #[trigger] listing(lines).contains_key(k) implies exists|i: int|
            0 <= i < lines.len() && (#[trigger] lines[i]).0 == k by {
            if k == lines.last().0 {
                assert(lines[lines.len() - 1].0 == k);
            } else {
                assert(listing(rest).contains_key(k));
                let i = choose|i: int| 0 <= i < rest.len() && (#[trigger] rest[i]).0 == k;
                assert(lines[i] == rest[i]);
            }
        }
    }
}

/// A map with just these ascending lines is their listing.
proof fn lemma_listing_is(lines: Seq<(u16, String)>, m: Listing)
    requires
        ascending(lines),
        forall|i: int|
            0 <= i < lines.len() ==> m.contains_key((#[trigger] lines[i]).0) && m[lines[i].0]
                == lines[i].1@,
        forall|k: u16| #[trigger]
            m.contains_key(k) ==> exists|i: int|
                0 <= i < lines.len() && (#[trigger] lines[i]).0 == k,
    ensures
        listing(lines) == m,
{
    lemma_listing(lines);
    assert forall|k: u16| #[trigger] listing(lines).contains_key(k) implies m.contains_key(k)
        && listing(lines)[k] == m[k] by {
        let i = choose|i: int| 0 <= i < lines.len() && (#[trigger] lines[i]).0 == k;
        assert(lines[i].0 == k);
    }
    assert forall|k: u16| #[trigger] m.contains_key(k) implies listing(lines).contains_key(k) by {
        let i = choose|i: int| 0 <= i < lines.len() && (#[trigger] lines[i]).0 == k;
        assert(lines[i].0 == k);
    }
    assert(listing(lines) =~= m);
}

/// A line that takes the place of one of its number.
proof fn lemma_replaced(lines: Seq<(u16, String)>, i: int, line: (u16, String))
    requires
        ascending(lines),
        0 <= i < lines.len(),
        lines[i].0 == line.0,
    ensures
        ascending(lines.update(i, line)),
        listing(lines.update(i, line)) == listing(lines).insert(line.0, line.1@),
{
    let after = lines.update(i, line);
    let m = listing(lines).insert(line.0, line.1@);
    lemma_listing(lines);
    assert forall|j: int| 0 <= j < after.len() implies m.contains_key((#[trigger] after[j]).0)
        && m[after[j].0] == after[j].1@ by {
        if j != i {
            assert(after[j] == lines[j]);
        }
    }
    assert forall|k: u16| #[trigger] m.contains_key(k) implies exists|j: int|
        0 <= j < after.len() && (#[trigger] after[j]).0 == k by {
        if k == line.0 {
            assert(after[i].0 == k);
        } else {
            assert(listing(lines).contains_key(k));
            let j = choose|j: int| 0 <= j < lines.len() && (#[trigger] lines[j]).0 == k;
            assert(after[j].0 == k);
        }
    }
    lemma_listing_is(after, m);
}

/// A new line in its place.
proof fn lemma_inserted(lines: Seq<(u16, String)>, i: int, line: (u16, String))
    requires
        ascending(lines),
        0 <= i <= lines.len(),
        forall|j: int| 0 <= j < i ==> (#[trigger] lines[j]).0 < line.0,
        forall|j: int| i <= j < lines.len() ==> (#[trigger] lines[j]).0 > line.0,
    ensures
        ascending(lines.insert(i, line)),
        listing(lines.insert(i, line)) == listing(lines).insert(line.0, line.1@),
{
    let after = lines.insert(i, line);
    let m = listing(lines).insert(line.0, line.1@);
    lemma_listing(lines);
    assert forall|j: int| 0 <= j < after.len() implies m.contains_key((#[trigger] after[j]).0)
        && m[after[j].0] == after[j].1@ by {
        if j < i {
            assert(after[j] == lines[j]);
        } else if j > i {
            assert(after[j] == lines[j - 1]);
        }
    }
    assert forall|k: u16| #[trigger] m.contains_key(k) implies exists|j: int|
        0 <= j < after.len() && (#[trigger] after[j]).0 == k by {
        if k == line.0 {
            assert(after[i].0 == k);
        } else {
            assert(listing(lines).contains_key(k));
            let j = choose|j: int| 0 <= j < lines.len() && (#[trigger] lines[j]).0 == k;
            if j < i {
                assert(after[j].0 == k);
            } else {
                assert(after[j + 1].0 == k);
            }
        }
    }
    lemma_listing_is(after, m);
}

/// A line taken away.
proof fn lemma_removed(lines: Seq<(u16, String)>, i: int)
    requires
        ascending(lines),
        0 <= i < lines.len(),
    ensures
        ascending(lines.remove(i)),
        listing(lines.remove(i)) == listing(lines).remove(lines[i].0),
{
    let after = lines.remove(i);
    let m = listing(lines).remove(lines[i].0);
    lemma_listing(lines);
    assert forall|j: int| 0 <= j < after.len() implies m.contains_key((#[trigger] after[j]).0)
        && m[after[j].0] == after[j].1@ by {
        if j < i {
            assert(after[j] == lines[j]);
        } else {
            assert(after[j] == lines[j + 1]);
        }
    }
    assert forall|k: u16| #[trigger] m.contains_key(k) implies exists|j: int|
        0 <= j < after.len() && (#[trigger] after[j]).0 == k by {
        assert(listing(lines).contains_key(k));
        let j = choose|j: int| 0 <= j < lines.len() && (#[trigger] lines[j]).0 == k;
        if j < i {
            assert(after[j].0 == k);
        } else {
            assert(after[j - 1].0 == k);
        }
    }
    lemma_listing_is(after, m);
}

impl View for Program {
    type V = Listing;

    closed spec fn view(&self) -> Listing {
        listing(self.lines@)
    }
}

impl Program {
    /// The lines are in order.
    pub closed spec fn wf(&self) -> bool {
        ascending(self.lines@)
    }

    /// An empty program.
    pub fn new() -> (r: Self)
        ensures
            r.wf(),
            r@ == Map::<u16, Seq<char>>::empty(),
    {
        Program { lines: Vec::new() }
    }

    /// How many lines have a number below `n`.
    fn count_below(&self, n: u16) -> (r: usize)
        requires
            self.wf(),
        ensures
            r <= self.lines@.len(),
            forall|i: int| 0 <= i < r ==> (#[trigger] self.lines@[i]).0 < n,
            forall|i: int| r <= i < self.lines@.len() ==> (#[trigger] self.lines@[i]).0 >= n,
    {
        let mut low: usize = 0;
        let mut high = self.lines.len();
        while low < high
            invariant
                self.wf(),
                low <= high <= self.lines@.len(),
                forall|i: int| 0 <= i < low ==> (#[trigger] self.lines@[i]).0 < n,
                forall|i: int| high <= i < self.lines@.len() ==> (#[trigger] self.lines@[i]).0
                    >= n,
            decreases high - low,
        {
            let middle = low + (high - low) / 2;
            if self.lines[middle].0 < n {
                low = middle + 1;
            } else {
                high = middle;
            }
        }
        low
    }

    /// Insert or replace the line at `number`. A blank `text` deletes it.
    pub fn upsert(&mut self, number: u16, text: String)
        requires
            old(self).wf(),
        ensures
            final(self).wf(),
            final(self)@ == (if text::trim(text@).len() == 0 {
                old(self)@.remove(number)
            } else {
                old(self)@.insert(number, text@)
            }),
    {
        let chars = text::chars(text.as_str());
        if text::trimmed(chars.as_slice()).len() == 0 {
            self.delete(number);
            return;
        }
        let i = self.count_below(number);
        if i < self.lines.len() && self.lines[i].0 == number {
            proof {
                lemma_replaced(self.lines@, i as int, (number, text));
            }
            self.lines.set(i, (number, text));
        } else {
            proof {
                assert forall|j: int| i <= j < self.lines@.len() implies (
                #[trigger] self.lines@[j]).0 > number by {
                    if j > i {
                        assert(self.lines@[i as int].0 < self.lines@[j].0);
                    }
                }
                lemma_inserted(self.lines@, i as int, (number, text));
            }
            self.lines.insert(i, (number, text));
        }
    }

    /// Delete the line at `number`, if there is one.
    pub fn delete(&mut self, number: u16)
        requires
            old(self).wf(),
        ensures
            final(self).wf(),
            final(self)@ == old(self)@.remove(number),
    {
        let i = self.count_below(number);
        if i < self.lines.len() && self.lines[i].0 == number {
            proof {
                lemma_removed(self.lines@, i as int);
            }
            self.lines.remove(i);
        } else {
            proof {
                lemma_listing(self.lines@);
                if self@.contains_key(number) {
                    let j = choose|j: int|
                        0 <= j < self.lines@.len() && (#[trigger] self.lines@[j]).0 == number;
                    if i < j {
                        assert(self.lines@[i as int].0 < self.lines@[j].0);
                    }
                }
                assert(self@.remove(number) =~= self@);
            }
        }
    }

    /// Delete every line.
    pub fn clear(&mut self)
        ensures
            final(self).wf(),
            final(self)@ == Map::<u16, Seq<char>>::empty(),
    {
        self.lines.clear();
    }

    /// Whether there is no line.
    pub fn is_empty(&self) -> (r: bool)
        requires
            self.wf(),
        ensures
            r == (self@ == Map::<u16, Seq<char>>::empty()),
    {
        proof {
            lemma_listing(self.lines@);
            if self.lines@.len() > 0 {
                assert(self@.contains_key(self.lines@[0].0));
            }
        }
        self.lines.len() == 0
    }

    /// The lines in ascending order of their numbers.
    pub fn iter(&self) -> (r: Vec<(u16, &str)>)
        requires
            self.wf(),
        ensures
            r@.map_values(|l: (u16, &str)| (l.0, l.1@)) == lines_from(self@, 0),
    {
        let mut r: Vec<(u16, &str)> = Vec::new();
        let ghost view = |l: (u16, &str)| (l.0, l.1@);
        let mut i: usize = 0;
        let ghost mut from: int = 0;
        proof {
            assert(r@.map_values(view) + lines_from(self@, 0) == lines_from(self@, 0));
        }
        while i < self.lines.len()
            invariant
                self.wf(),
                i <= self.lines@.len(),
                0 <= from <= 65536,
                view == (|l: (u16, &str)| (l.0, l.1@)),
                i > 0 ==> from == self.lines@[i - 1].0 + 1,
                i == 0 ==> from == 0,
                r@.map_values(view) + lines_from(self@, from) == lines_from(self@, 0),
            decreases self.lines@.len() - i,
        {
            let line = &self.lines[i];
            let ghost before = r@.map_values(view);
            let ghost k = line.0;
            proof {
                lemma_next_line_at(self.lines@, i as int, from);
                assert(lines_from(self@, from) == seq![(k, self@[k])] + lines_from(self@, k + 1));
            }
            r.push((line.0, line.1.as_str()));
            i += 1;
            proof {
                from = k + 1;
                assert(r@.map_values(view) == before.push((k, self@[k])));
                assert(before.push((k, self@[k])) + lines_from(self@, from) == before + (seq![
                    (k, self@[k]),
                ] + lines_from(self@, from)));
            }
        }
        proof {
            lemma_next_line_end(self.lines@, from);
            assert(lines_from(self@, from) == Seq::<(u16, Seq<char>)>::empty());
            assert(r@.map_values(view) + lines_from(self@, from) == r@.map_values(view));
        }
        r
    }

    /// The smallest line number in use at or above `n`.
    pub fn next_at_or_after(&self, n: u16) -> (r: Option<u16>)
        requires
            self.wf(),
        ensures
            r == next_line(self@, n as int),
    {
        let i = self.count_below(n);
        proof {
            lemma_listing(self.lines@);
            lemma_next_line(self@, n as int);
            if i < self.lines@.len() {
                assert(self@.contains_key(self.lines@[i as int].0));
            }
        }
        if i < self.lines.len() {
            Some(self.lines[i].0)
        } else {
            None
        }
    }

    /// The smallest line number in use above `n`.
    pub fn next_after(&self, n: u16) -> (r: Option<u16>)
        requires
            self.wf(),
        ensures
            r == next_line(self@, n + 1),
    {
        if n < 65535 {
            self.next_at_or_after(n + 1)
        } else {
            None
        }
    }

    /// The text of line `n`, if there is one.
    pub fn get(&self, n: u16) -> (r: Option<&str>)
        requires
            self.wf(),
        ensures
            match r {
                Some(s) => self@.contains_key(n) && self@[n] == s@,
                None => !self@.contains_key(n),
            },
    {
        let i = self.count_below(n);
        proof {
            lemma_listing(self.lines@);
            if i < self.lines@.len() {
                assert(self@.contains_key(self.lines@[i as int].0));
            }
        }
        if i < self.lines.len() && self.lines[i].0 == n {
            Some(self.lines[i].1.as_str())
        } else {
            None
        }
    }
}

impl Default for Program {
    fn default() -> (r: Self)
        ensures
            r.wf(),
            r@ == Map::<u16, Seq<char>>::empty(),
    {
        Program::new()
    }
}

/// The line at `i` is the next one after the line before it.
proof fn lemma_next_line_at(lines: Seq<(u16, String)>, i: int, from: int)
    requires
        ascending(lines),
        0 <= i < lines.len(),
        i > 0 ==> from == lines[i - 1].0 + 1,
        i == 0 ==> from == 0,
    ensures
        next_line(listing(lines), from) == Some(lines[i].0),
        listing(lines)[lines[i].0] == lines[i].1@,
{
    let m = listing(lines);
    lemma_listing(lines);
    lemma_next_line(m, from);
    assert(m.contains_key(lines[i].0));
    let k = next_line(m, from)->0;
    let j = choose|j: int| 0 <= j < lines.len() && (#[trigger] lines[j]).0 == k;
    if j < i {
        assert(lines[j].0 <= lines[i - 1].0);
    }
    if j > i {
        assert(lines[i].0 < lines[j].0);
    }
}

/// There is no line behind the last one.
proof fn lemma_next_line_end(lines: Seq<(u16, String)>, from: int)
    requires
        ascending(lines),
        lines.len() > 0 ==> from == lines.last().0 + 1,
        lines.len() == 0 ==> from == 0,
    ensures
        next_line(listing(lines), from) is None,
{
    let m = listing(lines);
    lemma_listing(lines);
    lemma_next_line(m, from);
    if let Some(k) = next_line(m, from) {
        let j = choose|j: int| 0 <= j < lines.len() && (#[trigger] lines[j]).0 == k;
        assert(lines[j].0 <= lines[lines.len() - 1].0);
    }
}

/// The lines of a program come in ascending order, each once, with its text.
pub proof fn lemma_lines_in_order(m: Listing, n: int)
    requires
        0 <= n,
    ensures
        forall|i: int, j: int|
            0 <= i < j < lines_from(m, n).len() ==> (#[trigger] lines_from(m, n)[i]).0 < (
            #[trigger] lines_from(m, n)[j]).0,
        forall|i: int|
            0 <= i < lines_from(m, n).len() ==> n <= (#[trigger] lines_from(m, n)[i]).0
                && m.contains_key(lines_from(m, n)[i].0) && m[lines_from(m, n)[i].0] == lines_from(
                m,
                n,
            )[i].1,
        forall|k: u16| #[trigger]
            m.contains_key(k) && n <= k ==> lines_from(m, n).contains((k, m[k])),
    decreases 65536 - n,
{
    lemma_next_line(m, n);
    let all = lines_from(m, n);
    match next_line(m, n) {
        None => {},
        Some(k) => {
            lemma_lines_in_order(m, k + 1);
            let rest = lines_from(m, k + 1);
            assert(all == seq![(k, m[k])] + rest);
            assert forall|i: int, j: int| 0 <= i < j < all.len() implies (#[trigger] all[i]).0 < (
            #[trigger] all[j]).0 by {
                assert(all[j] == rest[j - 1]);
                if i > 0 {
                    assert(all[i] == rest[i - 1]);
                }
            }
            assert forall|i: int| 0 <= i < all.len() implies n <= (#[trigger] all[i]).0
                && m.contains_key(all[i].0) && m[all[i].0] == all[i].1 by {
                if i > 0 {
                    assert(all[i] == rest[i - 1]);
                }
            }
            assert forall|j: u16| #[trigger] m.contains_key(j) && n <= j implies all.contains(
                (j, m[j]),
            ) by {
                if j == k {
                    assert(all[0] == (k, m[k]));
                } else {
                    assert(rest.contains((j, m[j])));
                    let i = choose|i: int| 0 <= i < rest.len() && rest[i] == (j, m[j]);
                    assert(all[i + 1] == (j, m[j]));
                }
            }
        },
    }
}

} // verus!
