//! The functions that the language provides, and the console they work on.
//!
//! The console is a value: the lines that wait to be read and the text
//! written so far. Whoever runs a program fills the one and shows the other.

use crate::text::{
    bool_text, decimal, lemma_numeral_round_trip, parse_int, parse_int_spec, push_bool, push_int,
    trim_end, trimmed_end,
};
use crate::value::{values_model, Val, Value};
use vstd::hash_map::StringHashMap;
use vstd::prelude::*;
use vstd::string::*;

verus! {

/// A function that the language provides.
#[derive(Debug, Clone, Copy, PartialEq, Eq)]
pub enum BuiltinFunction {
    /// Writes its arguments and a line break.
    Print,
    /// Writes its arguments, then reads a line.
    Input,
    /// Joins its arguments into a string.
    Str,
    /// Reads its arguments, joined, as an integer.
    Int,
}

/// The mathematical model of a console.
pub struct ConsoleView {
    /// The lines that wait to be read, the next one first.
    pub pending: Seq<Seq<char>>,
    /// All that was written, in order.
    pub output: Seq<char>,
    /// Whether a line was asked for when none was waiting.
    pub starved: bool,
}

/// The lines a program may read and the text it wrote.
pub struct Console {
    // The waiting lines, the next one last.
    waiting: Vec<String>,
    written: String,
    starved: bool,
}

impl View for Console {
    type V = ConsoleView;

    closed spec fn view(&self) -> ConsoleView {
        ConsoleView {
            pending: Seq::new(
                self.waiting@.len(),
                |i: int| self.waiting@[self.waiting@.len() - 1 - i]@,
            ),
            output: self.written@,
            starved: self.starved,
        }
    }
}

impl Console {
    /// A console with no line to read and nothing written.
    pub fn new() -> (r: Console)
        ensures
            r@ == (ConsoleView { pending: Seq::empty(), output: Seq::empty(), starved: false }),
    {
        let r = Console { waiting: Vec::new(), written: String::new(), starved: false };
        assert(r@.pending =~= Seq::empty());
        r
    }

    /// A console on which `lines` wait to be read, the first one first.
    pub fn with_input(lines: Vec<String>) -> (r: Console)
        ensures
            r@.pending == Seq::new(lines@.len(), |i: int| lines@[i]@),
            r@.output == Seq::<char>::empty(),
            !r@.starved,
    {
        let mut lines = lines;
        let ghost given = Seq::new(lines@.len(), |i: int| lines@[i]@);
        let mut waiting: Vec<String> = Vec::new();
        while lines.len() > 0
            invariant
                lines@.len() + waiting@.len() == given.len(),
                forall|i: int| 0 <= i < lines@.len() ==> lines@[i]@ == given[i],
                forall|i: int|
                    0 <= i < waiting@.len() ==> (#[trigger] waiting@[i])@ == given[given.len() - 1 - i],
            decreases lines.len(),
        {
            let line = lines.pop().unwrap();
            waiting.push(line);
        }
        let r = Console { waiting, written: String::new(), starved: false };
        assert(r@.pending =~= given);
        r
    }

    /// Appends `text` to what was written.
    pub fn write(&mut self, text: &str)
        ensures
            final(self)@ == (ConsoleView { output: old(self)@.output + text@, ..old(self)@ }),
    {
        self.written.append(text);
    }

    /// Takes the next waiting line. Without one, records that the console
    /// was starved.
    pub fn read_line(&mut self) -> (r: Option<String>)
        ensures
            match r {
                Some(line) => old(self)@.pending.len() > 0 && line@ == old(self)@.pending[0]
                    && final(self)@ == (ConsoleView {
                    pending: old(self)@.pending.drop_first(),
                    ..old(self)@
                }),
                None => old(self)@.pending.len() == 0 && final(self)@ == (ConsoleView {
                    starved: true,
                    ..old(self)@
                }),
            },
    {
        match self.waiting.pop() {
            Some(line) => {
                assert(self@.pending =~= old(self)@.pending.drop_first());
                Some(line)
            },
            None => {
                self.starved = true;
                assert(self@.pending =~= old(self)@.pending);
                None
            },
        }
    }

    /// All that was written.
    pub fn output(&self) -> (r: &str)
        ensures
            r@ == self@.output,
    {
        self.written.as_str()
    }

    /// How many lines wait to be read.
    pub fn pending(&self) -> (r: usize)
        ensures
            r == self@.pending.len(),
    {
        self.waiting.len()
    }

    /// Whether a line was asked for when none was waiting.
    pub fn starved(&self) -> (r: bool)
        ensures
            r == self@.starved,
    {
        self.starved
    }
}

/// Whether the built-in functions can write `v`.
pub open spec fn printable(v: Val) -> bool {
    v is Integer || v is String || v is Boolean
}

/// The text that stands for `v` when it is written.
pub open spec fn text_of(v: Val) -> Seq<char> {
    match v {
        Val::Integer(i) => decimal(i as int),
        Val::String(s) => s,
        Val::Boolean(b) => bool_text(b),
        _ => Seq::empty(),
    }
}

/// The texts of the first `n` values, joined without a separator.
pub open spec fn joined(args: Seq<Val>, n: int) -> Seq<char>
    decreases n,
{
    if n <= 0 {
        Seq::empty()
    } else {
        joined(args, n - 1) + text_of(args[n - 1])
    }
}

/// The first index at or after `i` that holds a value that cannot be
/// written, or the length.
pub open spec fn first_unprintable(args: Seq<Val>, i: int) -> int
    decreases args.len() - i,
{
    if 0 <= i < args.len() && printable(args[i]) {
        first_unprintable(args, i + 1)
    } else {
        i
    }
}

/// The error of a built-in function that was given a value it cannot write.
pub open spec fn unsupported_type() -> Seq<char> {
    "Unsupported type for print"@
}

/// The error of `input` when no line waits to be read.
pub open spec fn no_input() -> Seq<char> {
    "No input available"@
}

/// The error of `int` when its arguments are no numeral.
pub open spec fn not_an_integer() -> Seq<char> {
    "Failed to convert int() inputs to signed integer value"@
}

/// What `str` returns: the texts of the arguments, joined.
pub open spec fn str_result(args: Seq<Val>) -> Result<Val, Seq<char>> {
    if first_unprintable(args, 0) == args.len() {
        Ok(Val::String(joined(args, args.len() as int)))
    } else {
        Err(unsupported_type())
    }
}

/// What `int` returns: the integer whose numeral the arguments, joined, are.
pub open spec fn int_result(args: Seq<Val>) -> Result<Val, Seq<char>> {
    if first_unprintable(args, 0) == args.len() {
        match parse_int_spec(joined(args, args.len() as int)) {
            Some(i) => Ok(Val::Integer(i)),
            None => Err(not_an_integer()),
        }
    } else {
        Err(unsupported_type())
    }
}

/// The console once the arguments were written, in order, up to the first
/// one that cannot be.
pub open spec fn written(console: ConsoleView, args: Seq<Val>) -> ConsoleView {
    ConsoleView {
        output: console.output + joined(args, first_unprintable(args, 0)),
        ..console
    }
}

/// What `print` does to the console and what it returns.
pub open spec fn print_effect(console: ConsoleView, args: Seq<Val>) -> (
    ConsoleView,
    Result<Val, Seq<char>>,
) {
    let wrote = written(console, args);
    if first_unprintable(args, 0) == args.len() {
        (ConsoleView { output: wrote.output + seq!['\n'], ..wrote }, Ok(Val::Integer(0)))
    } else {
        (wrote, Err(unsupported_type()))
    }
}

/// What `input` does to the console and what it returns.
pub open spec fn input_effect(console: ConsoleView, args: Seq<Val>) -> (
    ConsoleView,
    Result<Val, Seq<char>>,
) {
    let wrote = written(console, args);
    if first_unprintable(args, 0) != args.len() {
        (wrote, Err(unsupported_type()))
    } else if wrote.pending.len() > 0 {
        (
            ConsoleView { pending: wrote.pending.drop_first(), ..wrote },
            Ok(Val::String(trimmed_end(wrote.pending[0]))),
        )
    } else {
        (ConsoleView { starved: true, ..wrote }, Err(no_input()))
    }
}

/// What a built-in function does to the console and what it returns.
pub open spec fn call_builtin(f: BuiltinFunction, console: ConsoleView, args: Seq<Val>) -> (
    ConsoleView,
    Result<Val, Seq<char>>,
) {
    match f {
        BuiltinFunction::Print => print_effect(console, args),
        BuiltinFunction::Input => input_effect(console, args),
        BuiltinFunction::Str => (console, str_result(args)),
        BuiltinFunction::Int => (console, int_result(args)),
    }
}

/// `int` undoes `str` on every integer.
pub proof fn lemma_int_of_str(i: i32)
    ensures
        str_result(seq![Val::Integer(i)]) == Ok::<Val, Seq<char>>(Val::String(decimal(i as int))),
        int_result(seq![Val::String(decimal(i as int))]) == Ok::<Val, Seq<char>>(Val::Integer(i)),
{
    reveal_with_fuel(first_unprintable, 2);
    reveal_with_fuel(joined, 2);
    lemma_numeral_round_trip(i);
    let a = seq![Val::Integer(i)];
    assert(joined(a, 1) =~= decimal(i as int));
    let b = seq![Val::String(decimal(i as int))];
    assert(joined(b, 1) =~= decimal(i as int));
}

/// The names of the built-in functions and what each is bound to.
pub open spec fn builtin_table() -> Map<Seq<char>, BuiltinFunction> {
    Map::empty().insert("print"@, BuiltinFunction::Print).insert(
        "input"@,
        BuiltinFunction::Input,
    ).insert("str"@, BuiltinFunction::Str).insert("int"@, BuiltinFunction::Int)
}

/// The registry of built-in functions: a fixed table from name to function.
pub struct Builtins {
    pub functions: StringHashMap<BuiltinFunction>,
}

impl View for Builtins {
    type V = Map<Seq<char>, BuiltinFunction>;

    open spec fn view(&self) -> Map<Seq<char>, BuiltinFunction> {
        self.functions@
    }
}

impl Builtins {
    /// The registry with `print`, `input`, `str` and `int`.
    pub fn new() -> (r: Builtins)
        ensures
            r@ == builtin_table(),
    {
        let mut functions: StringHashMap<BuiltinFunction> = StringHashMap::new();
        functions.insert(String::from_str("print"), BuiltinFunction::Print);
        functions.insert(String::from_str("input"), BuiltinFunction::Input);
        functions.insert(String::from_str("str"), BuiltinFunction::Str);
        functions.insert(String::from_str("int"), BuiltinFunction::Int);
        Builtins { functions }
    }

    /// The function registered under `name`, if there is one.
    pub fn get(&self, name: &str) -> (r: Option<BuiltinFunction>)
        ensures
            r == if self@.contains_key(name@) {
                Some(self@[name@])
            } else {
                None
            },
    {
        match self.functions.get(name) {
            Some(f) => Some(*f),
            None => None,
        }
    }

    /// Appends to `out` the texts of `args`, in order, up to the first value
    /// that cannot be written. Returns whether there was none.
    fn render(args: &Vec<Value>, out: &mut String) -> (all: bool)
        ensures
            final(out)@ == old(out)@ + joined(
                values_model(args),
                first_unprintable(values_model(args), 0),
            ),
            all == (first_unprintable(values_model(args), 0) == args@.len()),
    {
        let ghost vals = values_model(args);
        let mut i: usize = 0;
        while i < args.len()
            invariant
                i <= args.len(),
                vals == values_model(args),
                first_unprintable(vals, 0) == first_unprintable(vals, i as int),
                out@ == old(out)@ + joined(vals, i as int),
            decreases args.len() - i,
        {
            match &args[i] {
                Value::Integer(n) => {
                    push_int(*n, out);
                },
                Value::String(s) => {
                    out.append(s.as_str());
                },
                Value::Boolean(b) => {
                    push_bool(*b, out);
                },
                _ => {
                    assert(out@ =~= old(out)@ + joined(vals, first_unprintable(vals, 0)));
                    return false;
                },
            }
            assert(out@ =~= old(out)@ + joined(vals, i + 1));
            i += 1;
        }
        true
    }

    /// `print`: writes the arguments with nothing between them, then a line
    /// break, and returns 0.
    pub fn print(console: &mut Console, args: Vec<Value>) -> (r: Result<Value, String>)
        ensures
            (final(console)@, result_model(r)) == print_effect(old(console)@, values_model(&args)),
    {
        let mut text = String::new();
        let all = Builtins::render(&args, &mut text);
        assert(text@ =~= joined(values_model(&args), first_unprintable(values_model(&args), 0)));
        console.write(text.as_str());
        if !all {
            return Err(String::from_str("Unsupported type for print"));
        }
        proof {
            reveal_strlit("\n");
        }
        console.write("\n");
        assert("\n"@ =~= seq!['\n']);
        Ok(Value::Integer(0))
    }

    /// `input`: writes the arguments as `print` does, without the line
    /// break, then takes the next line and returns it without the white
    /// space at its end.
    pub fn input(console: &mut Console, args: Vec<Value>) -> (r: Result<Value, String>)
        ensures
            (final(console)@, result_model(r)) == input_effect(old(console)@, values_model(&args)),
    {
        let mut text = String::new();
        let all = Builtins::render(&args, &mut text);
        assert(text@ =~= joined(values_model(&args), first_unprintable(values_model(&args), 0)));
        console.write(text.as_str());
        if !all {
            return Err(String::from_str("Unsupported type for print"));
        }
        match console.read_line() {
            Some(line) => Ok(Value::String(trim_end(line.as_str()))),
            None => Err(String::from_str("No input available")),
        }
    }

    /// `str`: the texts of the arguments, joined.
    pub fn str(args: Vec<Value>) -> (r: Result<Value, String>)
        ensures
            result_model(r) == str_result(values_model(&args)),
    {
        let mut text = String::new();
        let all = Builtins::render(&args, &mut text);
        assert(text@ =~= joined(values_model(&args), first_unprintable(values_model(&args), 0)));
        if !all {
            return Err(String::from_str("Unsupported type for print"));
        }
        Ok(Value::String(text))
    }

    /// `int`: the integer whose numeral the arguments, joined, are.
    pub fn integer(args: Vec<Value>) -> (r: Result<Value, String>)
        ensures
            result_model(r) == int_result(values_model(&args)),
    {
        let mut text = String::new();
        let all = Builtins::render(&args, &mut text);
        assert(text@ =~= joined(values_model(&args), first_unprintable(values_model(&args), 0)));
        if !all {
            return Err(String::from_str("Unsupported type for print"));
        }
        match parse_int(text.as_str()) {
            Some(i) => Ok(Value::Integer(i)),
            None => Err(String::from_str("Failed to convert int() inputs to signed integer value")),
        }
    }

    /// Calls the built-in function `f` on `args`.
    pub fn call(f: BuiltinFunction, console: &mut Console, args: Vec<Value>) -> (r: Result<
        Value,
        String,
    >)
        ensures
            (final(console)@, result_model(r)) == call_builtin(
                f,
                old(console)@,
                values_model(&args),
            ),
    {
        match f {
            BuiltinFunction::Print => Builtins::print(console, args),
            BuiltinFunction::Input => Builtins::input(console, args),
            BuiltinFunction::Str => Builtins::str(args),
            BuiltinFunction::Int => Builtins::integer(args),
        }
    }
}

/// The model of a result: of the value, or of the error's text.
pub open spec fn result_model(r: Result<Value, String>) -> Result<Val, Seq<char>> {
    match r {
        Ok(v) => Ok(v@),
        Err(e) => Err(e@),
    }
}

} // verus!
