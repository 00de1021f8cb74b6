use zxbasic::calculator::{Calculator, Function, Operation};
use zxbasic::display::FRAME_RGBA_LEN;
use zxbasic::number::Number;
use zxbasic::system::{Drawing, Key, System};
use zxbasic::value::Value;

struct Host;

fn f(n: Number) -> f64 {
    f64::from_bits(n.bits)
}

fn n(x: f64) -> Number {
    Number { bits: x.to_bits() }
}

impl Calculator for Host {
    fn operate(&self, op: Operation, a: Number, b: Number) -> Number {
        let (a, b) = (f(a), f(b));
        n(match op {
            Operation::Add => a + b,
            Operation::Subtract => a - b,
            Operation::Multiply => a * b,
            Operation::Divide => a / b,
            Operation::Power => a.powf(b),
        })
    }

    fn apply(&self, function: Function, x: Number) -> Number {
        let x = f(x);
        n(match function {
            Function::Sine => x.sin(),
            Function::Cosine => x.cos(),
            Function::Tangent => x.tan(),
            Function::ArcSine => x.asin(),
            Function::ArcCosine => x.acos(),
            Function::ArcTangent => x.atan(),
            Function::NaturalLog => x.ln(),
            Function::Exponential => x.exp(),
            Function::SquareRoot => x.sqrt(),
            Function::DecimalLog => x.log10(),
            Function::Round => x.round(),
        })
    }

    fn power_of_ten(&self, k: i32) -> Number {
        n(10f64.powi(k))
    }

    fn literal(&self, text: &str) -> Number {
        n(text.parse().unwrap_or(f64::NAN))
    }

    fn places(&self, x: Number, count: usize) -> String {
        format!("{:.*}", count, f(x))
    }
}

fn feed_str(sys: &mut System, s: &str) {
    for b in s.bytes() {
        sys.feed_key(Key::Char(b), &Host);
    }
}
fn enter(sys: &mut System) {
    sys.feed_key(Key::Enter, &Host);
}
/// Drive the frame-based RUN loop to completion (or until `max_frames`
/// elapses, simulating BREAK after a long wait). Used by every test
/// that issues RUN.
fn drive(sys: &mut System) {
    for _ in 0..10_000 {
        if !sys.is_running() {
            return;
        }
        sys.frame(&Host);
    }
    panic!("program didn't finish in 10_000 frames");
}

fn num(sys: &System, name: &str) -> Option<f64> {
    sys.variable(name).and_then(|v| match v {
        Value::Num(x) => Some(f(*x)),
        _ => None,
    })
}

fn s(sys: &System, name: &str) -> Option<String> {
    sys.variable(name).and_then(|v| match v {
        Value::Str(b) => Some(String::from_utf8_lossy(b).into_owned()),
        _ => None,
    })
}

#[test]
fn let_then_print() {
    let mut sys = System::new();
    feed_str(&mut sys, "LET A=5");
    enter(&mut sys);
    feed_str(&mut sys, "PRINT A*2+1");
    enter(&mut sys);
    assert_eq!(num(&sys, "A"), Some(5.0));
}

#[test]
fn store_and_list() {
    let mut sys = System::new();
    feed_str(&mut sys, "10 LET A=1");
    enter(&mut sys);
    feed_str(&mut sys, "20 PRINT A");
    enter(&mut sys);
    let lines: Vec<_> = sys.lines();
    assert_eq!(lines, vec![(10, "LET A=1"), (20, "PRINT A")]);
}

#[test]
fn run_simple_program() {
    let mut sys = System::new();
    feed_str(&mut sys, "10 LET A=2");
    enter(&mut sys);
    feed_str(&mut sys, "20 LET B=3");
    enter(&mut sys);
    feed_str(&mut sys, "30 PRINT A*B");
    enter(&mut sys);
    feed_str(&mut sys, "RUN");
    enter(&mut sys);
    drive(&mut sys);
    assert_eq!(num(&sys, "A"), Some(2.0));
    assert_eq!(num(&sys, "B"), Some(3.0));
}

#[test]
fn goto_loops_terminate_via_stop() {
    let mut sys = System::new();
    feed_str(&mut sys, "10 LET I=0");
    enter(&mut sys);
    feed_str(&mut sys, "20 LET I=I+1");
    enter(&mut sys);
    feed_str(&mut sys, "30 STOP");
    enter(&mut sys);
    feed_str(&mut sys, "40 GOTO 20");
    enter(&mut sys);
    feed_str(&mut sys, "RUN");
    enter(&mut sys);
    drive(&mut sys);
    assert_eq!(num(&sys, "I"), Some(1.0));
}

#[test]
fn break_interrupts_infinite_loop() {
    // The Spectrum has no step limit — BREAK is the only way out of a
    // tight loop. We exercise that: tick a few frames, raise BREAK,
    // tick one more, expect the loop to stop with a fat counter and
    // a "BREAK into program" report.
    let mut sys = System::new();
    feed_str(&mut sys, "10 LET I=0");
    enter(&mut sys);
    feed_str(&mut sys, "20 LET I=I+1");
    enter(&mut sys);
    feed_str(&mut sys, "30 GOTO 20");
    enter(&mut sys);
    feed_str(&mut sys, "RUN");
    enter(&mut sys);
    // Let the loop spin for a couple of frame budgets, then break.
    for _ in 0..3 {
        sys.frame(&Host);
    }
    sys.feed_key(Key::Break, &Host);
    sys.frame(&Host);
    assert!(!sys.is_running(), "BREAK should have stopped the loop");
    let i = num(&sys, "I").unwrap();
    assert!(i > 1_000.0, "expected many iterations before BREAK, got {}", i);
}

#[test]
fn new_clears_program_and_vars() {
    let mut sys = System::new();
    feed_str(&mut sys, "10 LET A=1");
    enter(&mut sys);
    feed_str(&mut sys, "LET B=2");
    enter(&mut sys);
    feed_str(&mut sys, "NEW");
    enter(&mut sys);
    assert!(sys.lines().is_empty());
    assert!(sys.has_no_variables());
}

#[test]
fn if_then_branches() {
    let mut sys = System::new();
    feed_str(&mut sys, "10 LET A=5");
    enter(&mut sys);
    feed_str(&mut sys, "20 IF A>3 THEN LET B=99");
    enter(&mut sys);
    feed_str(&mut sys, "30 IF A<3 THEN LET B=42");
    enter(&mut sys);
    feed_str(&mut sys, "RUN");
    enter(&mut sys);
    drive(&mut sys);
    assert_eq!(num(&sys, "B"), Some(99.0));
}

#[test]
fn builtins_resolve_in_print() {
    let mut sys = System::new();
    feed_str(&mut sys, "LET A=INT 3.7");
    enter(&mut sys);
    assert_eq!(num(&sys, "A"), Some(3.0));
    feed_str(&mut sys, "LET B=ABS -5");
    enter(&mut sys);
    assert_eq!(num(&sys, "B"), Some(5.0));
    feed_str(&mut sys, "LET C=SQR 16");
    enter(&mut sys);
    assert_eq!(num(&sys, "C"), Some(4.0));
}

#[test]
fn rnd_produces_unit_interval() {
    let mut sys = System::new();
    for _ in 0..50 {
        feed_str(&mut sys, "LET R=RND");
        enter(&mut sys);
        let r = num(&sys, "R").unwrap();
        assert!((0.0..1.0).contains(&r), "RND out of range: {}", r);
    }
}

#[test]
fn empty_text_deletes_program_line() {
    let mut sys = System::new();
    feed_str(&mut sys, "10 LET A=1");
    enter(&mut sys);
    feed_str(&mut sys, "10");
    enter(&mut sys);
    assert!(sys.lines().is_empty());
}

#[test]
fn string_variable_and_concat() {
    let mut sys = System::new();
    feed_str(&mut sys, "LET A$=\"hello\"");
    enter(&mut sys);
    feed_str(&mut sys, "LET B$=A$+\" world\"");
    enter(&mut sys);
    assert_eq!(s(&sys, "A$").as_deref(), Some("hello"));
    assert_eq!(s(&sys, "B$").as_deref(), Some("hello world"));
}

#[test]
fn type_mismatched_let_rejected() {
    let mut sys = System::new();
    feed_str(&mut sys, "LET A$=5");
    enter(&mut sys);
    assert!(sys.variable("A$").is_none());
    feed_str(&mut sys, "LET A=\"hi\"");
    enter(&mut sys);
    assert!(sys.variable("A").is_none());
}

#[test]
fn multi_statement_colon() {
    let mut sys = System::new();
    // Three colon-separated statements on one immediate line.
    feed_str(&mut sys, "LET A=10: LET B=20: LET C=A+B");
    enter(&mut sys);
    assert_eq!(num(&sys, "A"), Some(10.0));
    assert_eq!(num(&sys, "B"), Some(20.0));
    assert_eq!(num(&sys, "C"), Some(30.0));
}

#[test]
fn multi_statement_inside_program_line() {
    let mut sys = System::new();
    feed_str(&mut sys, "10 LET A=1: LET B=2: LET C=A+B");
    enter(&mut sys);
    feed_str(&mut sys, "RUN");
    enter(&mut sys);
    drive(&mut sys);
    assert_eq!(num(&sys, "C"), Some(3.0));
}

#[test]
fn dim_then_index_assign() {
    let mut sys = System::new();
    feed_str(&mut sys, "DIM A(5)");
    enter(&mut sys);
    feed_str(&mut sys, "LET A(1)=10");
    enter(&mut sys);
    feed_str(&mut sys, "LET A(5)=50");
    enter(&mut sys);
    feed_str(&mut sys, "LET B=A(1)+A(5)");
    enter(&mut sys);
    assert_eq!(num(&sys, "B"), Some(60.0));
}

#[test]
fn array_out_of_range_errors() {
    let mut sys = System::new();
    feed_str(&mut sys, "DIM A(3)");
    enter(&mut sys);
    feed_str(&mut sys, "LET A(0)=1");
    enter(&mut sys);
    // A unchanged because 0 is out of range (Spectrum is 1-indexed).
    assert_eq!(sys.array("A").map(|a| f(a[0])), Some(0.0));
}

#[test]
fn dim_in_program_with_loop() {
    // Two-loop program: fill A(1..5)=I*I, then sum into S.
    let mut sys = System::new();
    feed_str(&mut sys, "10 DIM A(5)");
    enter(&mut sys);
    feed_str(&mut sys, "20 LET S=0");
    enter(&mut sys);
    feed_str(&mut sys, "30 FOR I=1 TO 5");
    enter(&mut sys);
    feed_str(&mut sys, "40 LET A(I)=I*I");
    enter(&mut sys);
    feed_str(&mut sys, "50 LET S=S+A(I)");
    enter(&mut sys);
    feed_str(&mut sys, "60 NEXT I");
    enter(&mut sys);
    feed_str(&mut sys, "RUN");
    enter(&mut sys);
    drive(&mut sys);
    // 1+4+9+16+25 = 55
    assert_eq!(num(&sys, "S"), Some(55.0));
}

#[test]
fn gosub_return_visits_subroutine() {
    let mut sys = System::new();
    feed_str(&mut sys, "10 LET A=0");
    enter(&mut sys);
    feed_str(&mut sys, "20 GOSUB 100");
    enter(&mut sys);
    feed_str(&mut sys, "30 STOP");
    enter(&mut sys);
    feed_str(&mut sys, "100 LET A=99");
    enter(&mut sys);
    feed_str(&mut sys, "110 RETURN");
    enter(&mut sys);
    feed_str(&mut sys, "RUN");
    enter(&mut sys);
    drive(&mut sys);
    assert_eq!(num(&sys, "A"), Some(99.0));
}

#[test]
fn return_without_gosub_errors() {
    let mut sys = System::new();
    feed_str(&mut sys, "10 RETURN");
    enter(&mut sys);
    feed_str(&mut sys, "RUN");
    enter(&mut sys);
    drive(&mut sys);
    // No assertion on display, just check we didn't panic.
    // RETURN without GOSUB → error printed, no infinite loop.
    assert!(sys.gosub_depth() == 0);
}

#[test]
fn def_fn_callable() {
    let mut sys = System::new();
    feed_str(&mut sys, "DEF FN F(X)=X*X+1");
    enter(&mut sys);
    feed_str(&mut sys, "LET A=FN F(5)");
    enter(&mut sys);
    assert_eq!(num(&sys, "A"), Some(26.0));
}

#[test]
fn def_fn_local_scope() {
    // The parameter shadows any outer variable of the same name.
    let mut sys = System::new();
    feed_str(&mut sys, "LET X=100");
    enter(&mut sys);
    feed_str(&mut sys, "DEF FN G(X)=X+1");
    enter(&mut sys);
    feed_str(&mut sys, "LET A=FN G(7)");
    enter(&mut sys);
    assert_eq!(num(&sys, "A"), Some(8.0)); // not 101
    assert_eq!(num(&sys, "X"), Some(100.0)); // outer X intact
}

#[test]
fn for_next_basic_loop() {
    let mut sys = System::new();
    feed_str(&mut sys, "10 LET S=0");
    enter(&mut sys);
    feed_str(&mut sys, "20 FOR I=1 TO 5");
    enter(&mut sys);
    feed_str(&mut sys, "30 LET S=S+I");
    enter(&mut sys);
    feed_str(&mut sys, "40 NEXT I");
    enter(&mut sys);
    feed_str(&mut sys, "RUN");
    enter(&mut sys);
    drive(&mut sys);
    // 1+2+3+4+5 = 15
    assert_eq!(num(&sys, "S"), Some(15.0));
    // I is left at 6 after the loop terminates.
    assert_eq!(num(&sys, "I"), Some(6.0));
}

#[test]
fn for_next_step() {
    let mut sys = System::new();
    feed_str(&mut sys, "10 LET S=0");
    enter(&mut sys);
    feed_str(&mut sys, "20 FOR I=10 TO 2 STEP -2");
    enter(&mut sys);
    feed_str(&mut sys, "30 LET S=S+I");
    enter(&mut sys);
    feed_str(&mut sys, "40 NEXT I");
    enter(&mut sys);
    feed_str(&mut sys, "RUN");
    enter(&mut sys);
    drive(&mut sys);
    // 10+8+6+4+2 = 30
    assert_eq!(num(&sys, "S"), Some(30.0));
}

#[test]
fn input_resumes_after_enter() {
    let mut sys = System::new();
    feed_str(&mut sys, "10 INPUT N");
    enter(&mut sys);
    feed_str(&mut sys, "20 LET R=N*N");
    enter(&mut sys);
    feed_str(&mut sys, "RUN");
    enter(&mut sys);
    drive(&mut sys);
    // System should now be parked awaiting input.
    assert!(sys.is_waiting(), "expected pending input");
    // User types 7.
    feed_str(&mut sys, "7");
    enter(&mut sys);
    // Resume execution after INPUT and finish line 20.
    drive(&mut sys);
    assert_eq!(num(&sys, "N"), Some(7.0));
    assert_eq!(num(&sys, "R"), Some(49.0));
    assert!(!sys.is_waiting());
}

#[test]
fn input_string_variable() {
    let mut sys = System::new();
    feed_str(&mut sys, "10 INPUT N$");
    enter(&mut sys);
    feed_str(&mut sys, "RUN");
    enter(&mut sys);
    drive(&mut sys);
    feed_str(&mut sys, "hello world");
    enter(&mut sys);
    drive(&mut sys);
    assert_eq!(s(&sys, "N$").as_deref(), Some("hello world"));
}

#[test]
fn string_builtins() {
    let mut sys = System::new();
    feed_str(&mut sys, "LET A=LEN \"hello\"");
    enter(&mut sys);
    assert_eq!(num(&sys, "A"), Some(5.0));
    feed_str(&mut sys, "LET A=CODE \"A\"");
    enter(&mut sys);
    assert_eq!(num(&sys, "A"), Some(65.0));
    feed_str(&mut sys, "LET S$=CHR$ 65");
    enter(&mut sys);
    assert_eq!(s(&sys, "S$").as_deref(), Some("A"));
    feed_str(&mut sys, "LET S$=STR$ 42");
    enter(&mut sys);
    assert_eq!(s(&sys, "S$").as_deref(), Some("42"));
    feed_str(&mut sys, "LET A=VAL \"1+2*3\"");
    enter(&mut sys);
    assert_eq!(num(&sys, "A"), Some(7.0));
}

fn run(lines: &[&str]) -> System {
    let mut sys = System::new();
    for line in lines {
        feed_str(&mut sys, line);
        enter(&mut sys);
    }
    drive(&mut sys);
    sys
}

#[test]
fn boot_screen_shows_the_copyright() {
    let sys = System::new();
    assert_eq!(sys.status(), "\u{a9} 1982 Sinclair Research Ltd");
    assert!(!sys.is_running());
    assert_eq!(sys.print_cursor(), (0, 0));
}

#[test]
fn immediate_commands_report() {
    assert_eq!(run(&["LET A=1"]).status(), "0 OK, 0:1");
    assert_eq!(run(&["STOP"]).status(), "9 STOP statement, 0:1");
    assert_eq!(run(&["FOO"]).status(), "1 Nonsense in BASIC, 0:1");
    assert_eq!(run(&["INK 9"]).status(), "1 Integer out of range, 0:1");
    assert_eq!(run(&["DIM A(0)"]).status(), "1 Subscript wrong, 0:1");
    assert_eq!(run(&["NEXT"]).status(), "1 NEXT without FOR, 0:1");
    assert_eq!(run(&["RETURN"]).status(), "1 RETURN without GOSUB, 0:1");
    assert_eq!(run(&["GOTO 10"]).status(), "1 Nonsense in BASIC, 0:1");
    assert_eq!(run(&["INPUT A"]).status(), "1 Nonsense in BASIC, 0:1");
    assert_eq!(run(&["10 STOP"]).status(), "");
    assert_eq!(run(&[""]).status(), "");
}

#[test]
fn programs_report_their_line() {
    assert_eq!(run(&["10 LET A=1", "20 LET B=2", "RUN"]).status(), "0 OK, 20:1");
    assert_eq!(run(&["10 STOP", "RUN"]).status(), "9 STOP statement, 10:1");
    assert_eq!(
        run(&["10 LET A=1", "20 LET", "RUN"]).status(),
        "1 Nonsense in BASIC, 20:1"
    );
    assert_eq!(
        run(&["10 GOTO 70000", "RUN"]).status(),
        "1 Integer out of range, 10:1"
    );
    assert_eq!(run(&["10 GOTO 500", "RUN"]).status(), "0 OK, 10:1");
}

#[test]
fn break_report_names_the_line_and_cuts_tones_off() {
    let mut sys = System::new();
    for line in ["10 BEEP 1,0", "20 GOTO 10", "RUN"] {
        feed_str(&mut sys, line);
        enter(&mut sys);
    }
    sys.frame(&Host);
    assert!(sys.is_running());
    sys.feed_key(Key::Break, &Host);
    assert!(sys.is_running());
    sys.frame(&Host);
    assert!(!sys.is_running());
    assert_eq!(sys.status(), "D BREAK into program, 20:1");
    assert!(sys.take_audio_cancel());
    assert!(!sys.take_audio_cancel());
    assert!(sys.drain_beeps().is_empty());
}

#[test]
fn idle_break_is_forgotten() {
    let mut sys = System::new();
    sys.feed_key(Key::Break, &Host);
    sys.frame(&Host);
    for line in ["10 LET A=1", "RUN"] {
        feed_str(&mut sys, line);
        enter(&mut sys);
    }
    drive(&mut sys);
    assert_eq!(num(&sys, "A"), Some(1.0));
}

#[test]
fn beep_queues_a_tone_and_waits() {
    let mut sys = System::new();
    for line in ["10 BEEP 0.5,9", "20 LET A=1", "RUN"] {
        feed_str(&mut sys, line);
        enter(&mut sys);
    }
    sys.frame(&Host);
    let beeps: Vec<(f64, f64)> = sys.drain_beeps().iter().map(|(d, p)| (f(*d), f(*p))).collect();
    assert_eq!(beeps, vec![(0.5, 440.0)]);
    assert!(sys.drain_beeps().is_empty());
    // Half a second is thirty frames, and one more.
    for _ in 0..30 {
        sys.frame(&Host);
        assert_eq!(num(&sys, "A"), None);
    }
    sys.frame(&Host);
    assert_eq!(num(&sys, "A"), Some(1.0));
    assert_eq!(run(&["BEEP 121,0"]).status(), "1 Integer out of range, 0:1");
    assert_eq!(run(&["BEEP 1"]).status(), "1 Nonsense in BASIC, 0:1");
}

fn typed(lines: &[&str]) -> System {
    let mut sys = System::new();
    for line in lines {
        feed_str(&mut sys, line);
        enter(&mut sys);
    }
    sys
}

#[test]
fn a_tone_holds_up_the_rest_of_its_line() {
    let mut sys = typed(&["10 LET B=1: BEEP 0.5,9: LET A=1: LET A=A+1", "20 LET C=1", "RUN"]);
    sys.frame(&Host);
    assert_eq!((num(&sys, "B"), num(&sys, "A")), (Some(1.0), None));
    assert_eq!(sys.drain_beeps().len(), 1);
    for _ in 0..30 {
        sys.frame(&Host);
        assert_eq!(num(&sys, "A"), None);
        assert!(sys.is_running());
    }
    sys.frame(&Host);
    assert_eq!((num(&sys, "A"), num(&sys, "C")), (Some(2.0), Some(1.0)));
    assert_eq!(sys.status(), "0 OK, 20:1");
    // So it is behind `THEN`.
    let mut sys = typed(&["10 IF 1 THEN BEEP 0.1,0: LET A=1", "RUN"]);
    sys.frame(&Host);
    assert_eq!(num(&sys, "A"), None);
    drive(&mut sys);
    assert_eq!(num(&sys, "A"), Some(1.0));
    // What is typed is obeyed at once.
    assert_eq!(num(&typed(&["BEEP 1,0: LET A=1"]), "A"), Some(1.0));
}

#[test]
fn break_stops_within_a_line() {
    let mut sys = typed(&["10 BEEP 1,0: LET A=1", "RUN"]);
    sys.frame(&Host);
    sys.feed_key(Key::Break, &Host);
    sys.frame(&Host);
    assert!(!sys.is_running());
    assert_eq!(sys.status(), "D BREAK into program, 10:1");
    drive(&mut sys);
    assert_eq!(num(&sys, "A"), None);
    // The next run starts at the beginning of the line.
    feed_str(&mut sys, "RUN");
    enter(&mut sys);
    drive(&mut sys);
    assert_eq!(num(&sys, "A"), Some(1.0));
    assert_eq!(sys.drain_beeps().len(), 1);
}

#[test]
fn a_frame_runs_five_thousand_statements() {
    let mut sys = typed(&["10 LET A=A+1: LET A=A+1: GOTO 10", "RUN"]);
    assert!(sys.is_running());
    sys.frame(&Host);
    assert_eq!(sys.status(), "1 Nonsense in BASIC, 10:1");
    let mut sys = typed(&["5 LET A=0", "10 LET A=A+1: LET A=A+1: GOTO 10", "RUN"]);
    sys.frame(&Host);
    // The first statement, then two in three of the others.
    assert_eq!(num(&sys, "A"), Some(3333.0));
    sys.frame(&Host);
    assert_eq!(num(&sys, "A"), Some(6666.0));
}

#[test]
fn a_line_that_has_been_begun_can_be_left() {
    // A typed RUN starts over, a typed NEW leaves nothing to run.
    let mut sys = typed(&["10 LET A=1: BEEP 1,0: LET A=2", "RUN"]);
    sys.frame(&Host);
    assert_eq!(num(&sys, "A"), Some(1.0));
    feed_str(&mut sys, "RUN");
    enter(&mut sys);
    assert_eq!(num(&sys, "A"), None);
    drive(&mut sys);
    assert_eq!(num(&sys, "A"), Some(2.0));
    let mut sys = typed(&["10 LET A=1: BEEP 1,0: LET A=2", "RUN"]);
    sys.frame(&Host);
    feed_str(&mut sys, "NEW");
    enter(&mut sys);
    drive(&mut sys);
    assert!(sys.has_no_variables());
    // Other typed statements leave the line as it is.
    let mut sys = typed(&["10 BEEP 1,0: LET A=B", "RUN"]);
    sys.frame(&Host);
    feed_str(&mut sys, "LET B=7");
    enter(&mut sys);
    drive(&mut sys);
    assert_eq!(num(&sys, "A"), Some(7.0));
    // A jump leaves what follows it in the line.
    let sys = run(&["10 GOTO 30: LET A=1", "20 STOP", "30 LET B=1", "RUN"]);
    assert_eq!((num(&sys, "A"), num(&sys, "B")), (None, Some(1.0)));
}

/// The texts that were printed since the last clearing.
fn printed(sys: &mut System) -> Vec<String> {
    let mut out = Vec::new();
    for drawing in sys.drain_drawings() {
        if let Drawing::Text { text, .. } = drawing {
            out.push(text);
        }
    }
    out
}

#[test]
fn printing_moves_the_cursor() {
    assert_eq!(run(&["PRINT 12"]).print_cursor(), (0, 1));
    assert_eq!(run(&["PRINT"]).print_cursor(), (0, 1));
    assert_eq!(run(&["PRINT 12;"]).print_cursor(), (2, 0));
    assert_eq!(run(&["PRINT \"a;b\";\"c\""]).print_cursor(), (0, 1));
    assert_eq!(run(&["PRINT \"ab\";-5;"]).print_cursor(), (4, 0));
    assert_eq!(run(&["PRINT AT 5,10;"]).print_cursor(), (10, 5));
    assert_eq!(run(&["PRINT AT 5,10;1;"]).print_cursor(), (11, 5));
    assert_eq!(run(&["PRINT AT 99,99"]).print_cursor(), (31, 21));
    assert_eq!(run(&["PRINT TAB 7;1;"]).print_cursor(), (8, 0));
    assert_eq!(run(&["PRINT TAB 39;"]).print_cursor(), (7, 0));
    assert_eq!(run(&["PRINT \"abc\";TAB 1;"]).print_cursor(), (1, 1));
    // A name that begins with AT or TAB is a value like any other.
    assert_eq!(run(&["PRINT ATN 0;5"]).print_cursor(), (0, 1));
    assert_eq!(run(&["PRINT ATN 0;5;"]).print_cursor(), (2, 0));
    assert_eq!(printed(&mut run(&["LET ATX=5", "PRINT ATX;7"])), ["5", "7", "\n"]);
    assert_eq!(run(&["LET ATX=5", "PRINT ATX;7"]).print_cursor(), (0, 1));
    assert_eq!(printed(&mut run(&["LET TABLE=3", "PRINT TABLE;4"])), ["3", "4", "\n"]);
    assert_eq!(run(&["PRINT AT 5"]).status(), "1 Nonsense in BASIC, 0:1");
    assert_eq!(run(&["PRINT TAB \"a\""]).status(), "1 Nonsense in BASIC, 0:1");
}

#[test]
fn drawings_are_left_to_the_host() {
    let mut sys = run(&[
        "INK 2",
        "PAPER 6",
        "BRIGHT 1",
        "FLASH 1",
        "PRINT \"hi\";",
        "PLOT 10,20",
        "DRAW 5,-7",
        "CIRCLE 100,50,30",
        "BORDER 2",
        "BORDER 5",
        "CLS",
    ]);
    let attr = 2 + 6 * 8 + 64 + 128;
    let mut all = sys.drain_drawings().into_iter();
    assert!(matches!(
        all.next(),
        Some(Drawing::Text { col: 0, row: 0, text, attr: a }) if text == "hi" && a == attr
    ));
    assert!(matches!(all.next(), Some(Drawing::Plot { x: 10, y: 20, attr: a }) if a == attr));
    assert!(matches!(
        all.next(),
        Some(Drawing::Line { x0: 10, y0: 20, x1: 15, y1: 13, attr: a }) if a == attr
    ));
    assert!(matches!(
        all.next(),
        Some(Drawing::Circle { x: 100, y: 50, r: 30, attr: a }) if a == attr
    ));
    assert!(matches!(all.next(), Some(Drawing::Lower { attr: 23 })));
    assert!(matches!(all.next(), Some(Drawing::Lower { attr: 40 })));
    assert!(matches!(all.next(), Some(Drawing::Clear { attr: a }) if a == attr));
    assert!(all.next().is_none());
    assert!(sys.drain_drawings().is_empty());
    assert_eq!(sys.print_cursor(), (0, 0));
    let palette = [[0, 0, 0], [1, 1, 1], [2, 2, 2], [3, 3, 3], [4, 4, 4], [5, 6, 7], [6, 6, 6], [7, 7, 7]];
    assert_eq!(sys.border_rgb(&palette), [5, 6, 7]);
    assert_eq!(run(&["BORDER 8"]).status(), "1 Integer out of range, 0:1");
    assert_eq!(
        run(&["PLOT 2E9,0", "DRAW 2E9,0"]).status(),
        "1 Integer out of range, 0:1"
    );
}

#[test]
fn strings_need_not_be_text() {
    let mut sys = run(&["PRINT CHR$ 200;", "LET A=VAL CHR$ 200", "LET B=CODE CHR$ -56"]);
    assert!(matches!(
        sys.drain_drawings().pop(),
        Some(Drawing::Text { text, .. }) if text == "\u{fffd}"
    ));
    assert_eq!(num(&sys, "A"), None);
    assert_eq!(num(&sys, "B"), Some(200.0));
}

#[test]
fn functions_of_the_machine() {
    let sys = run(&[
        "LET X=3",
        "LET A=VAL \"X+1\"",
        "LET B=SGN -2+SGN 7+SGN 0",
        "LET C=CODE \"\"",
        "LET D$=STR$ 1E9+\"!\"",
        "LET E=INT -2.5",
        "LET P=PI",
        "DEF FN A(N)=N+X",
        "DEF FN B(N)=FN A(N)*2",
        "LET F=FN B(4)",
        "LET G=SIN PI+COS 0+TAN 0+ASN 0+ACS 1+ATN 0+LN 1+EXP 0",
    ]);
    assert_eq!(num(&sys, "A"), Some(4.0));
    assert_eq!(num(&sys, "B"), Some(0.0));
    assert_eq!(num(&sys, "C"), Some(0.0));
    assert_eq!(s(&sys, "D$").as_deref(), Some("1E9!"));
    assert_eq!(num(&sys, "E"), Some(-3.0));
    assert_eq!(num(&sys, "P"), Some(core::f64::consts::PI));
    assert_eq!(num(&sys, "F"), Some(14.0));
    assert!((num(&sys, "G").unwrap() - 2.0).abs() < 1e-12);
}

#[test]
fn the_first_random_number() {
    let sys = run(&["LET R=RND", "LET S=RND"]);
    assert_eq!(num(&sys, "R"), Some(0.431_527_997_048_509_97));
    assert!(num(&sys, "R") != num(&sys, "S"));
}

#[test]
fn definitions_that_make_no_sense() {
    for line in [
        "DEF",
        "DEF FN",
        "DEF FNF(X)=X",
        "DEF FN F",
        "DEF FN F(X",
        "DEF FN F(1)=X",
        "DEF FN F(X)",
        "DEF FN F(X)=",
        "LET 1=2",
        "LET A",
        "LET A(1=2",
        "DIM A",
        "DIM A$(3)",
        "DIM A(1",
        "FOR A$=1 TO 2",
        "FOR A=1",
        "FOR A=1 TO 2 STEP 0",
        "IF 1",
        "IF 1 THEN",
        "IF \"a\" THEN STOP",
        "GOSUB -1",
        "RUN \"a\"",
        "PLOT 1",
        "CIRCLE 1,2",
    ] {
        assert_eq!(run(&[line]).status(), "1 Nonsense in BASIC, 0:1", "{}", line);
    }
}

#[test]
fn subscripts_out_of_range() {
    for line in ["LET A(0)=1", "LET A(4)=1", "LET B(1)=1", "DIM A(10001)"] {
        assert_eq!(
            run(&["DIM A(3)", line]).status(),
            "1 Subscript wrong, 0:1",
            "{}",
            line
        );
    }
    let sys = run(&["DIM A(3)", "LET A(2)=7", "LET B=A(2)+A(3)"]);
    assert_eq!(num(&sys, "B"), Some(7.0));
    assert_eq!(sys.array("A").unwrap().len(), 3);
    assert!(sys.array("B").is_none());
}

#[test]
fn typing_and_taking_back() {
    let mut sys = System::new();
    feed_str(&mut sys, "LET A=12");
    sys.feed_key(Key::Backspace, &Host);
    sys.feed_key(Key::Char(7), &Host);
    sys.feed_key(Key::Char(200), &Host);
    enter(&mut sys);
    assert_eq!(num(&sys, "A"), Some(1.0));
    // No more than 255 characters fit.
    feed_str(&mut sys, &format!("LET A={}", "1+".repeat(124)));
    feed_str(&mut sys, "17");
    enter(&mut sys);
    assert_eq!(num(&sys, "A"), Some(125.0));
}

#[test]
fn colons_inside_strings_and_brackets_do_not_split() {
    let sys = run(&["LET A$=\"x:y\": LET B=1: STOP: LET B=2"]);
    assert_eq!(s(&sys, "A$").as_deref(), Some("x:y"));
    assert_eq!(num(&sys, "B"), Some(1.0));
    assert_eq!(sys.status(), "9 STOP statement, 0:1");
}

#[test]
fn if_takes_the_rest_of_the_line() {
    let sys = run(&[
        "LET A=0: LET B=0",
        "IF 0 THEN LET A=1: LET B=1",
        "IF 2 THEN IF 1 THEN LET C=1: LET D=2",
    ]);
    assert_eq!(num(&sys, "A"), Some(0.0));
    assert_eq!(num(&sys, "B"), Some(0.0));
    assert_eq!(num(&sys, "C"), Some(1.0));
    assert_eq!(num(&sys, "D"), Some(2.0));
}

#[test]
fn nested_loops_and_calls() {
    let sys = run(&[
        "10 LET S=0",
        "20 FOR I=1 TO 3",
        "30 FOR J=1 TO 2",
        "40 GOSUB 100",
        "50 NEXT J",
        "60 NEXT I",
        "70 STOP",
        "100 LET S=S+I*J",
        "110 RETURN",
        "RUN",
    ]);
    assert_eq!(num(&sys, "S"), Some(18.0));
    assert_eq!(sys.gosub_depth(), 0);
    assert_eq!(sys.status(), "9 STOP statement, 70:1");
}

#[test]
fn next_of_an_outer_loop_drops_the_inner_one() {
    let sys = run(&[
        "10 FOR I=1 TO 2",
        "20 FOR J=1 TO 9",
        "30 NEXT I",
        "40 NEXT J",
        "RUN",
    ]);
    assert_eq!(sys.status(), "1 NEXT without FOR, 40:1");
    assert_eq!(num(&sys, "I"), Some(3.0));
}

#[test]
fn loops_run_once_at_least() {
    let sys = run(&["10 LET N=0", "20 FOR I=5 TO 1", "30 LET N=N+1", "40 NEXT I", "RUN"]);
    assert_eq!(num(&sys, "N"), Some(1.0));
    assert_eq!(num(&sys, "I"), Some(6.0));
}

#[test]
fn jumps_go_to_the_next_line_there_is() {
    let sys = run(&["10 GOTO 15", "20 LET A=1", "RUN"]);
    assert_eq!(num(&sys, "A"), Some(1.0));
    let sys = run(&["10 LET A=1", "20 LET B=2", "RUN 15"]);
    assert_eq!(num(&sys, "A"), None);
    assert_eq!(num(&sys, "B"), Some(2.0));
}

#[test]
fn run_forgets_variables_and_keeps_functions() {
    let sys = run(&["DEF FN F(X)=X+1", "LET A=1", "DIM B(2)", "10 LET C=FN F(1)", "RUN"]);
    assert_eq!(num(&sys, "A"), None);
    assert!(sys.array("B").is_none());
    assert_eq!(num(&sys, "C"), Some(2.0));
}

#[test]
fn input_that_is_no_number() {
    let mut sys = run(&["10 INPUT N", "20 LET A=1", "RUN"]);
    assert!(sys.is_waiting());
    let row = sys.print_cursor().1;
    feed_str(&mut sys, "(");
    enter(&mut sys);
    assert!(!sys.is_waiting() && !sys.is_running());
    assert_eq!(sys.print_cursor(), (0, row + 1));
    assert_eq!(num(&sys, "N"), None);
}

#[test]
fn nothing_follows_the_last_line_number() {
    let mut sys = System::new();
    for line in ["10 LET A=0", "65535 LET A=A+1", "RUN"] {
        feed_str(&mut sys, line);
        enter(&mut sys);
    }
    drive(&mut sys);
    assert_eq!(num(&sys, "A"), Some(1.0));
    assert_eq!(sys.status(), "0 OK, 65535:1");
    let mut sys = System::new();
    for line in ["10 LET A=0", "65535 INPUT A", "RUN"] {
        feed_str(&mut sys, line);
        enter(&mut sys);
    }
    sys.frame(&Host);
    feed_str(&mut sys, "42");
    enter(&mut sys);
    drive(&mut sys);
    assert_eq!(num(&sys, "A"), Some(42.0));
    feed_str(&mut sys, "LET B=7");
    enter(&mut sys);
    assert_eq!(num(&sys, "B"), Some(7.0));
    // A loop or a call from there has nowhere to go back to.
    let sys = run(&["65535 FOR I=1 TO 2: NEXT I", "RUN"]);
    assert_eq!(sys.status(), "0 OK, 65535:1");
    let sys = run(&["10 RETURN", "65535 GOSUB 10", "RUN 65535"]);
    assert_eq!(sys.status(), "0 OK, 10:1");
}

#[test]
fn a_listed_line_can_be_entered_again() {
    let sys = run(&["  20   PRINT  1", "20 PRINT  1", "10 STOP", "10", "LIST"]);
    assert_eq!(sys.lines(), vec![(20, "PRINT  1")]);
    // Two stored lines, one that was deleted, and the listing.
    assert_eq!(sys.print_cursor(), (0, 4));
    let sys = run(&["70000 STOP"]);
    assert!(sys.lines().is_empty());
    assert_eq!(sys.print_cursor(), (0, 1));
}

#[test]
fn the_screen_shows_what_was_printed() {
    let mut sys = run(&["PRINT \"!\";"]);
    let mut out = vec![0; FRAME_RGBA_LEN];
    sys.render_into(&mut out);
    let ink = |x: usize, y: usize| {
        let i = (y * 256 + x) * 4;
        assert_eq!(out[i + 3], 0xff);
        out[i] == 0
    };
    // The bar of an exclamation mark is in the fourth column.
    assert!(ink(3, 1) && ink(3, 4) && !ink(3, 5) && ink(3, 6));
    assert!(!ink(2, 1) && !ink(4, 1));
    sys.frame(&Host);
    assert_eq!(System::FRAME_RGBA_LEN, out.len());
}

#[test]
fn frames_share_out_a_program() {
    let mut sys = System::new();
    for line in ["10 LET A=0", "20 LET A=A+1", "30 GOTO 20", "RUN"] {
        feed_str(&mut sys, line);
        enter(&mut sys);
    }
    sys.frame(&Host);
    // One statement before the loop, then two a turn.
    assert_eq!(num(&sys, "A"), Some(2500.0));
    sys.frame(&Host);
    assert_eq!(num(&sys, "A"), Some(5000.0));
}
