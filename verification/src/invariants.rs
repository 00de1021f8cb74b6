//! What every state of the machine has in common.

use vstd::prelude::*;

use crate::calculator::Arithmetic;
use crate::display::DisplayView;
use crate::env::UserFnView;
use crate::machine;
use crate::machine::{
    ColourKind, Item, Key, LoopView, Outcome, PendingView, StepResult, SystemView, ARRAY_LIMIT,
    BEEP_LIMIT,
};
use crate::number::Number;
use crate::program;
use crate::program::Listing;
use crate::syntax;
use crate::table::Names;
use crate::text;
use crate::text::Class;
use crate::value;
use crate::value::ValueView;

verus! {

/// A variable has a name and a value of the type that its name tells.
pub open spec fn typed(vars: Names<ValueView>) -> bool {
    forall|n: Seq<char>| #[trigger]
        vars.contains_key(n) ==> syntax::valid_name(n) && (vars[n] is Str) == value::names_string(n)
}

/// An array has a numeric name and at least one element.
pub open spec fn dimensioned(arrays: Names<Seq<Number>>) -> bool {
    forall|n: Seq<char>| #[trigger]
        arrays.contains_key(n) ==> syntax::valid_name(n) && !value::names_string(n) && 1
            <= arrays[n].len() <= ARRAY_LIMIT
}

/// A function has a parameter and a text.
pub open spec fn defined(fns: Names<UserFnView>) -> bool {
    forall|n: Seq<char>| #[trigger]
        fns.contains_key(n) ==> syntax::valid_name(fns[n].param) && fns[n].body.len() > 0
}

/// A loop has a numeric variable and a step.
pub open spec fn stepping(loops: Seq<LoopView>) -> bool {
    forall|i: int|
        0 <= i < loops.len() ==> syntax::valid_name((#[trigger] loops[i]).var)
            && !value::names_string(loops[i].var) && !loops[i].step.same_value(
            Number::truth(false),
        )
}

/// A line of the program has a text.
pub open spec fn written(listing: Listing) -> bool {
    forall|n: u16| #[trigger] listing.contains_key(n) ==> text::trim(listing[n]).len() > 0
}

/// A tone has a length.
pub open spec fn audible(beeps: Seq<(Number, Number)>) -> bool {
    forall|i: int| 0 <= i < beeps.len() ==> (#[trigger] beeps[i]).0.within(0, BEEP_LIMIT as int)
}

/// A typed line is made of printable ASCII.
pub open spec fn printable(input: Seq<char>) -> bool {
    forall|i: int| 0 <= i < input.len() ==> 32 <= (#[trigger] input[i]) as u32 <= 126
}

/// What a typed line is waited for is a variable.
pub open spec fn answerable(pending: Option<PendingView>) -> bool {
    pending matches Some(p) ==> syntax::valid_name(p.var)
}

/// Of a line of which something is left, a program runs.
pub open spec fn begun(pc: Option<u16>, rest: Option<Seq<char>>) -> bool {
    rest matches Some(left) ==> pc is Some && left.len() > 0
}

impl SystemView {
    /// What every state of the machine has in common.
    pub open spec fn consistent(self) -> bool {
        &&& self.wf()
        &&& typed(self.vars)
        &&& dimensioned(self.arrays)
        &&& defined(self.fns)
        &&& stepping(self.loops)
        &&& written(self.listing)
        &&& audible(self.beeps)
        &&& answerable(self.pending)
        &&& printable(self.input)
        &&& begun(self.pc, self.rest)
    }

    /// After a series of keys and frames.
    pub open spec fn after(self, events: Seq<Event>, ar: Arithmetic) -> SystemView
        decreases events.len(),
    {
        if events.len() == 0 {
            self
        } else {
            let s = self.after(events.drop_last(), ar);
            match events.last() {
                Event::Pressed(key) => s.pressed(key, ar),
                Event::Frame => s.frame(ar),
            }
        }
    }
}

/// What can happen to the machine.
pub enum Event {
    Pressed(Key),
    Frame,
}

proof fn lemma_display_printed(d: DisplayView, s: Seq<char>)
    requires
        d.wf(),
    ensures
        d.printed(s).wf(),
        d.printed_line(s).wf(),
{
    d.lemma_printed_keeps(s);
}

proof fn lemma_shown(s: SystemView, t: Seq<char>)
    requires
        s.consistent(),
    ensures
        s.shown(t).consistent(),
        s.shown_line(t).consistent(),
{
    lemma_display_printed(s.display, t);
}

proof fn lemma_valued(s: SystemView, src: Seq<char>, ar: Arithmetic)
    requires
        s.consistent(),
    ensures
        s.valued(src, ar).1.consistent(),
        s.number(src, ar).1.consistent(),
{
    reveal(SystemView::valued);
}

proof fn lemma_numbers(s: SystemView, a: Seq<char>, b: Seq<char>, ar: Arithmetic)
    requires
        s.consistent(),
    ensures
        s.numbers(a, b, ar).1.consistent(),
{
    lemma_valued(s, a, ar);
    lemma_valued(s.number(a, ar).1, b, ar);
}

proof fn lemma_value_shown(s: SystemView, src: Seq<char>, ar: Arithmetic)
    requires
        s.consistent(),
    ensures
        s.value_shown(src, ar).1.consistent(),
{
    lemma_valued(s, src, ar);
    if let (Some(v), t) = s.valued(src, ar) {
        lemma_shown(t, machine::value_text(v, ar));
    }
}

proof fn lemma_tabbed(s: SystemView, col: int)
    requires
        s.consistent(),
    ensures
        s.tabbed(col).consistent(),
{
    lemma_shown(s, machine::blanks(col - s.display.col));
    lemma_shown(s, "\n"@);
    lemma_shown(s.shown("\n"@), machine::blanks(col));
}

proof fn lemma_print_item(s: SystemView, item: Seq<char>, ar: Arithmetic)
    requires
        s.consistent(),
    ensures
        s.print_item(item, ar).1.consistent(),
{
    lemma_value_shown(s, item, ar);
    if let Some((row, col)) = syntax::at_char(item.skip(2), ',') {
        lemma_numbers(s, row, col, ar);
    }
    lemma_valued(s, item.skip(3), ar);
    if let (Some(n), t) = s.number(item.skip(3), ar) {
        lemma_tabbed(t, n.saturated(0, usize::MAX as int) % (crate::display::CHAR_W as int));
    }
}

proof fn lemma_print_items(
    s: SystemView,
    items: Seq<Seq<char>>,
    i: int,
    printed: bool,
    ar: Arithmetic,
)
    requires
        s.consistent(),
    ensures
        s.print_items(items, i, printed, ar).1.consistent(),
    decreases items.len() - i,
{
    if 0 <= i < items.len() {
        let item = text::trim(items[i]);
        if item.len() == 0 {
            lemma_print_items(s, items, i + 1, printed, ar);
        } else {
            lemma_print_item(s, item, ar);
            match s.print_item(item, ar) {
                (Item::Value, t) => lemma_print_items(t, items, i + 1, true, ar),
                (Item::Placed, t) => lemma_print_items(t, items, i + 1, printed, ar),
                (Item::End(r), t) => {},
            }
        }
    }
}

proof fn lemma_print(s: SystemView, args: Seq<char>, ar: Arithmetic)
    requires
        s.consistent(),
    ensures
        s.print(args, ar).0.consistent(),
{
    reveal(SystemView::print);
    lemma_shown(s, "\n"@);
    lemma_print_items(s, syntax::items(args), 0, false, ar);
    let t = s.print_items(syntax::items(args), 0, false, ar).1;
    lemma_shown(t, "\n"@);
}

proof fn lemma_graphics(s: SystemView, args: Seq<char>, ar: Arithmetic)
    requires
        s.consistent(),
    ensures
        forall|k: ColourKind| (#[trigger] s.colour(args, k, ar)).0.consistent(),
        s.border(args, ar).0.consistent(),
        s.plot(args, ar).0.consistent(),
        s.draw(args, ar).0.consistent(),
        s.circle(args, ar).0.consistent(),
        s.beep(args, ar).0.consistent(),
{
    reveal(SystemView::colour);
    reveal(SystemView::border);
    reveal(SystemView::plot);
    reveal(SystemView::draw);
    reveal(SystemView::circle);
    reveal(SystemView::beep);
    lemma_valued(s, args, ar);
    if let Some((a, b)) = syntax::at_char(args, ',') {
        lemma_numbers(s, a, b, ar);
        if let Some((c, d)) = syntax::at_char(b, ',') {
            lemma_numbers(s, a, c, ar);
            lemma_valued(s.numbers(a, c, ar).1, d, ar);
        }
    }
}

proof fn lemma_assign(s: SystemView, args: Seq<char>, ar: Arithmetic)
    requires
        s.consistent(),
    ensures
        s.assign(args, ar).0.consistent(),
{
    reveal(SystemView::assign);
    if let Some(i) = syntax::first_top_level(args, '=', 0) {
        let lhs = text::trim(args.take(i));
        let rhs = args.skip(i + 1);
        lemma_valued(s, rhs, ar);
        if let Some((before, inside)) = syntax::at_char(lhs, '(') {
            if let Some(close) = text::last_index_of(inside, ')') {
                lemma_numbers(s, inside.take(close), rhs, ar);
            }
        }
    }
}

proof fn lemma_dim(s: SystemView, args: Seq<char>, ar: Arithmetic)
    requires
        s.consistent(),
    ensures
        s.dim(args, ar).0.consistent(),
{
    reveal(SystemView::dim);
    if let Some((before, inside)) = syntax::at_char(text::trim(args), '(') {
        if let Some(close) = text::last_index_of(inside, ')') {
            lemma_valued(s, inside.take(close), ar);
        }
    }
}

proof fn lemma_for(s: SystemView, args: Seq<char>, ar: Arithmetic)
    requires
        s.consistent(),
    ensures
        s.for_to(args, ar).0.consistent(),
{
    reveal(SystemView::for_to);
    if let Some((lhs, after)) = syntax::at_char(args, '=') {
        if let Some((start, rest)) = syntax::at_word(after, "TO"@) {
            lemma_numbers(s, start, rest, ar);
            if let Some((end, step)) = syntax::at_word(rest, "STEP"@) {
                lemma_numbers(s, start, end, ar);
                lemma_valued(s.numbers(start, end, ar).1, step, ar);
            }
        }
    }
}

proof fn lemma_jumps(s: SystemView, args: Seq<char>, ar: Arithmetic)
    requires
        s.consistent(),
    ensures
        s.goto(args, ar).0.consistent(),
        s.gosub(args, ar).0.consistent(),
        s.go_back().0.consistent(),
        s.next(args, ar).0.consistent(),
        s.run(args, ar).0.consistent(),
        s.ask(args).0.consistent(),
        s.def(args).0.consistent(),
        s.erased().consistent(),
        s.cls().consistent(),
{
    reveal(SystemView::goto);
    reveal(SystemView::gosub);
    reveal(SystemView::go_back);
    reveal(SystemView::next);
    reveal(SystemView::run);
    reveal(SystemView::ask);
    reveal(SystemView::def);
    lemma_valued(s, args, ar);
    assert(s.fresh().consistent());
    lemma_valued(s.fresh(), args, ar);
    crate::laws::lemma_next_loop(s, args);
}

proof fn lemma_listed(d: DisplayView, lines: Seq<(u16, Seq<char>)>)
    requires
        d.wf(),
    ensures
        machine::listed(d, lines).wf(),
    decreases lines.len(),
{
    if lines.len() > 0 {
        lemma_listed(d, lines.drop_last());
        lemma_display_printed(
            machine::listed(d, lines.drop_last()),
            machine::numbered(lines.last().0, lines.last().1),
        );
    }
}

proof fn lemma_command(s: SystemView, head: Seq<char>, args: Seq<char>, ar: Arithmetic)
    requires
        s.consistent(),
    ensures
        s.command(head, args, ar).0.consistent(),
{
    reveal(SystemView::command);
    reveal(SystemView::list);
    lemma_print(s, args, ar);
    lemma_graphics(s, args, ar);
    lemma_assign(s, args, ar);
    lemma_dim(s, args, ar);
    lemma_for(s, args, ar);
    lemma_jumps(s, args, ar);
    lemma_listed(s.display, program::lines_from(s.listing, 0));
}

proof fn lemma_statement(s: SystemView, stmt: Seq<char>, ar: Arithmetic)
    requires
        s.consistent(),
    ensures
        s.statement(stmt, ar).0.consistent(),
{
    reveal(SystemView::statement);
    reveal(SystemView::conditional);
    reveal(SystemView::condition);
    let t = text::trim(stmt);
    lemma_command(s, text::uppercase(syntax::at_blank(t).0), syntax::at_blank(t).1, ar);
}

proof fn lemma_stepped(s: SystemView, rest: Seq<char>, ar: Arithmetic)
    requires
        s.consistent(),
    ensures
        s.stepped(rest, ar).0.consistent(),
        s.stepped(rest, ar).1 matches Outcome::Then(left) ==> left.len() > 0,
{
    let this = machine::first_statement(rest).0;
    lemma_statement(s, this, ar);
    s.lemma_then(this, ar);
}

proof fn lemma_statements(s: SystemView, rest: Seq<char>, ar: Arithmetic)
    requires
        s.consistent(),
    ensures
        s.statements(rest, ar).0.consistent(),
    decreases rest.len(),
{
    if rest.len() > 0 {
        s.lemma_stepped(rest, ar);
        lemma_stepped(s, rest, ar);
        if let (t, Outcome::Then(left)) = s.stepped(rest, ar) {
            lemma_statements(t, left, ar);
        }
    }
}

/// Executing a line keeps the state consistent.
pub proof fn lemma_execute_consistent(s: SystemView, line: Seq<char>, ar: Arithmetic)
    requires
        s.consistent(),
    ensures
        s.execute(line, ar).0.consistent(),
{
    reveal(SystemView::execute);
    lemma_statements(s, text::trim(line), ar);
}

proof fn lemma_statement_run(s: SystemView, line: u16, ar: Arithmetic)
    requires
        s.consistent(),
    ensures
        s.statement_run(line, ar).consistent(),
{
    reveal(SystemView::statement_run);
    reveal(SystemView::concluded);
    let t = SystemView { last_line: line, line: Some(line), rest: None, ..s };
    lemma_stepped(t, s.ahead(line), ar);
}

proof fn lemma_statements_run(s: SystemView, n: nat, ar: Arithmetic)
    requires
        s.consistent(),
    ensures
        s.statements_run(n, ar).consistent(),
    decreases n,
{
    match s.pc {
        Some(line) if n > 0 => {
            if !s.break_requested && s.wait == 0 {
                lemma_statement_run(s, line, ar);
                lemma_statements_run(s.statement_run(line, ar), (n - 1) as nat, ar);
            }
        },
        _ => {},
    }
}

proof fn lemma_redrawn(s: SystemView)
    requires
        s.consistent(),
    ensures
        s.redrawn().consistent(),
{
    reveal(SystemView::redrawn);
}

proof fn lemma_entered(s: SystemView, ar: Arithmetic)
    requires
        s.consistent(),
    ensures
        s.entered(ar).consistent(),
{
    reveal(SystemView::answered);
    reveal(SystemView::obeyed);
    reveal(SystemView::stored);
    let t = SystemView { input: Seq::empty(), pending: None, ..s.attended() };
    assert(t.consistent());
    let line = text::trim(s.input);
    let n = text::leading(line, Class::Digit) as int;
    let number = text::decimal_value(line.take(n)) as u16;
    let body = text::trim_start(line.skip(n));
    lemma_shown(t, machine::message(machine::Fault::Nonsense));
    lemma_shown(t, machine::numbered(number, body));
    lemma_execute_consistent(t, line, ar);
    lemma_valued(t, s.input, ar);
    lemma_shown(
        t.number(s.input, ar).1,
        machine::message(machine::Fault::Nonsense),
    );
}

/// The machine is consistent when it is switched on.
pub proof fn lemma_booted_consistent()
    ensures
        SystemView::booted().consistent(),
{
    reveal(SystemView::redrawn);
}

/// Whatever keys and frames have come, the machine is consistent: variables,
/// arrays and loops have names and values of their kind, lines and functions
/// have a text, the typed line is printable and fits, a line that has been
/// begun belongs to a running program, the cursor is in the print area and the
/// colours exist.
pub proof fn lemma_always_consistent(events: Seq<Event>, ar: Arithmetic)
    ensures
        SystemView::booted().after(events, ar).consistent(),
    decreases events.len(),
{
    if events.len() == 0 {
        lemma_booted_consistent();
    } else {
        lemma_always_consistent(events.drop_last(), ar);
        let s = SystemView::booted().after(events.drop_last(), ar);
        let key = match events.last() {
            Event::Pressed(key) => key,
            Event::Frame => Key::Break,
        };
        lemma_stays_consistent(s, key, ar);
    }
}

/// Every key and every frame keep the machine consistent.
pub proof fn lemma_stays_consistent(s: SystemView, key: Key, ar: Arithmetic)
    requires
        s.consistent(),
    ensures
        s.pressed(key, ar).consistent(),
        s.frame(ar).consistent(),
{
    reveal(SystemView::redrawn);
    lemma_entered(s, ar);
    let typed_key = match key {
        Key::Char(b) => if 32 <= b <= 126 && s.input.len() < machine::INPUT_LIMIT {
            SystemView { input: s.input.push(b as char), ..s.attended() }
        } else {
            s.attended()
        },
        _ => s,
    };
    assert(typed_key.consistent());
    let w = SystemView {
        wait: if s.wait > 0 {
            (s.wait - 1) as u32
        } else {
            0
        },
        ..s
    };
    assert(w.consistent());
    lemma_statements_run(w, machine::STATEMENTS_PER_FRAME as nat, ar);
    lemma_redrawn(w.ticked(ar));
}

} // verus!
