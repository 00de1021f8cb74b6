# zxbasic

A ZX Spectrum BASIC runtime in Verus: the interpreter, the line editor, the
number formatting and the display model, proved against their contracts. It is
not a Z80 emulator; it runs programs written in Spectrum BASIC.

## Layout

```
src/
  number, calculator    numbers as binary64 bits; the host's rounded arithmetic
  text, syntax, table   characters, splitting of statements, named things
  value, env            runtime values and where names are looked up
  grammar, reading      the grammar of expressions and what follows from it
  semantics, expression what expressions mean, and their evaluation
  fp_format             how numbers are printed
  display, charset      the screen and its font
  program               stored lines
  builtins              built-in functions and the environment of a program
  machine               what every statement, key and frame does
  laws, invariants      what holds across them
  state, printing, graphics, assignment, control, execution, keyboard
                        the code of the statements, keys and frames
  system, web           the machine for a host and for a browser
tests/                  tests that run against the compiled library
app/                    a desktop harness, the hardware calculator, and the
                        wasm-bindgen face for browsers
```

## How contracts are stated

`machine` describes the whole machine as a value, `SystemView`, and every
statement, key and frame as a function on it. The code in `state` and its
neighbours is proved to do just that, and `laws` and `invariants` are proved of
the same functions. A `System` is `consistent` from the start and stays so with
every key and frame, whatever the calculator answers.

A program runs statement by statement: BREAK and the tones of `BEEP` are heeded
before each of them, within a line too. What is typed without a line number is
obeyed at once.

Rounded arithmetic is the host's business: a `Calculator` works it out. Nothing
is assumed of it. Where a result depends on it, the contract is stated over the
operations as functions and holds of every calculator whose results depend on
the arguments alone. The calculator in `app/` is used as such a one. The
standard library vouches for that of the four basic operations, square roots,
rounding and decimal conversions. It leaves the precision of `sin`, `cos`, `tan`,
`asin`, `acos`, `atan`, `ln`, `log10`, `exp`, `powf` and `powi` open: it may
differ between platforms, between versions and between two runs, and what
depends on them is no firmer than that. Results that are not a number get one
bit pattern, because the hardware's choice of it is open too.

Ordering, truncation, rounding down and conversion to and
from integers are done and proved here, on the bits.

Colours and graphics beyond the monochrome pixel grid are queued as `Drawing`s
for the host, in the order in which they happen.
