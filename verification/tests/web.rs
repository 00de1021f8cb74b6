use zxbasic::calculator::{Calculator, Function, Operation};
use zxbasic::number::Number;
use zxbasic::web::System;
use zxbasic::{FRAME_RGBA_LEN, PIXEL_H, PIXEL_W};

struct Host;

fn f(n: Number) -> f64 {
    f64::from_bits(n.bits)
}

fn n(x: f64) -> Number {
    Number { bits: x.to_bits() }
}

impl Calculator for Host {
    fn operate(&self, op: Operation, a: Number, b: Number) -> Number {
        let (a, b) = (f(a), f(b));
        n(match op {
            Operation::Add => a + b,
            Operation::Subtract => a - b,
            Operation::Multiply => a * b,
            Operation::Divide => a / b,
            Operation::Power => a.powf(b),
        })
    }

    fn apply(&self, function: Function, x: Number) -> Number {
        let x = f(x);
        n(match function {
            Function::Sine => x.sin(),
            Function::Cosine => x.cos(),
            Function::Tangent => x.tan(),
            Function::ArcSine => x.asin(),
            Function::ArcCosine => x.acos(),
            Function::ArcTangent => x.atan(),
            Function::NaturalLog => x.ln(),
            Function::Exponential => x.exp(),
            Function::SquareRoot => x.sqrt(),
            Function::DecimalLog => x.log10(),
            Function::Round => x.round(),
        })
    }

    fn power_of_ten(&self, k: i32) -> Number {
        n(10f64.powi(k))
    }

    fn literal(&self, text: &str) -> Number {
        n(text.parse().unwrap_or(f64::NAN))
    }

    fn places(&self, x: Number, count: usize) -> String {
        format!("{:.*}", count, f(x))
    }
}

#[test]
fn a_frame_has_the_size_of_the_screen() {
    let mut sys = System::new(Host);
    assert_eq!((sys.pixel_w(), sys.pixel_h()), (PIXEL_W, PIXEL_H));
    assert_eq!(sys.render().len(), FRAME_RGBA_LEN);
}

#[test]
fn typed_keys_appear_in_the_lower_screen() {
    let mut sys = System::new(Host);
    sys.feed_char(b' ');
    let blank = sys.render();
    sys.feed_char(b'X');
    let typed = sys.render();
    assert!(blank != typed);
    let print_area = 23 * 8 * PIXEL_W * 4;
    assert_eq!(blank[..print_area], typed[..print_area]);
    sys.feed_backspace();
    assert!(sys.render() == blank);
}

#[test]
fn an_entered_line_is_obeyed() {
    let mut sys = System::new(Host);
    let before = sys.render();
    for b in b"PRINT 1" {
        sys.feed_char(*b);
    }
    sys.feed_enter();
    let after = sys.render();
    assert!(before[..8 * PIXEL_W * 4] != after[..8 * PIXEL_W * 4]);
}
