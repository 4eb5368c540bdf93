//! Running a program against a console that someone else serves.
//!
//! The evaluator works on a console that is a value. A session lets a
//! program be run where the lines only come as the program asks for them,
//! and lets what it writes be shown before it has ended. A step runs the
//! program from its start, on the lines read so far and under a bound. Where
//! the program asks for a line that is not there, the step ends and asks for
//! one, and the next step runs the program with one more line. Where the
//! program reaches the bound, the step ends and the next step runs the
//! program under twice the bound. Each step hands over what the program
//! wrote beyond what earlier steps handed over.

use crate::ast::{clone_names, names_model, Ast, AstNode};
use crate::builtins::{result_model, Console, ConsoleView};
use crate::interpreter::{global_frame, Evaluator};
use crate::laws::out_of_fuel;
use crate::semantics::{run, Outcome, State};
use crate::value::{Val, Value};
use vstd::prelude::*;
use vstd::string::*;

verus! {

/// The mathematical model of a session.
pub struct SessionView {
    /// The program.
    pub program: Ast,
    /// The lines read so far, in order.
    pub lines: Seq<Seq<char>>,
    /// How many characters of the program's output were handed over.
    pub shown: nat,
    /// The bound under which the next step runs the program.
    pub limit: nat,
}

/// The mathematical model of what a step asks for.
pub enum ActionView {
    Read { text: Seq<char> },
    More { text: Seq<char> },
    End { text: Seq<char>, result: Result<Val, Seq<char>> },
}

/// What a step of a session asks of whoever serves the console.
#[derive(Debug, PartialEq, Eq)]
pub enum Action {
    /// Show `text`, read a line, and take the next step with it.
    Read { text: String },
    /// Show `text`, and take the next step without a line: the program
    /// has not ended yet.
    More { text: String },
    /// Show `text`. The run is over, with `result`.
    End { text: String, result: Result<Value, String> },
}

/// The bound under which the first step of a session runs its program.
pub const FIRST_LIMIT: u64 = 65536;

impl View for Action {
    type V = ActionView;

    open spec fn view(&self) -> ActionView {
        match self {
            Action::Read { text } => ActionView::Read { text: text@ },
            Action::More { text } => ActionView::More { text: text@ },
            Action::End { text, result } => ActionView::End {
                text: text@,
                result: result_model(*result),
            },
        }
    }
}

/// The outcome of a run of `program` in the state in which a program
/// starts, with `lines` waiting to be read, under the bound `limit`.
pub open spec fn replay(program: Ast, lines: Seq<Seq<char>>, limit: nat) -> Outcome {
    run(
        State {
            env: seq![global_frame()],
            console: ConsoleView { pending: lines, output: Seq::empty(), starved: false },
        },
        program,
        limit,
    )
}

/// The bound that follows `limit`: twice as large, and no larger than the
/// largest.
pub open spec fn next_limit(limit: nat) -> nat {
    if limit <= u64::MAX / 2 {
        limit * 2
    } else {
        u64::MAX as nat
    }
}

/// What of `output` lies behind its first `shown` characters.
pub open spec fn unseen(output: Seq<char>, shown: nat) -> Seq<char> {
    if shown <= output.len() {
        output.subrange(shown as int, output.len() as int)
    } else {
        Seq::empty()
    }
}

/// The session after a step that was handed `line`, and what the step asks
/// for. The program is run on all lines read so far, under the bound of the
/// session, and what it wrote beyond what was shown is to be shown. Where
/// the program asked for a line in vain, a line is to be read. Where it
/// reached the bound, and there is a larger one, the next step runs it under
/// the next bound. Else the run is over.
pub open spec fn step(s: SessionView, line: Option<Seq<char>>) -> (SessionView, ActionView) {
    let lines = match line {
        Some(l) => s.lines.push(l),
        None => s.lines,
    };
    let outcome = replay(s.program, lines, s.limit);
    let output = outcome.state.console.output;
    let text = unseen(output, s.shown);
    let after = SessionView { program: s.program, lines, shown: output.len(), limit: s.limit };
    if outcome.state.console.starved {
        (after, ActionView::Read { text })
    } else if out_of_fuel(outcome.result) && s.limit < u64::MAX {
        (SessionView { limit: next_limit(s.limit), ..after }, ActionView::More { text })
    } else {
        (after, ActionView::End { text, result: outcome.result })
    }
}

/// What the program wrote in the run of the step of `s` that was handed
/// `line`.
pub open spec fn written_in_step(s: SessionView, line: Option<Seq<char>>) -> Seq<char> {
    let lines = match line {
        Some(l) => s.lines.push(l),
        None => s.lines,
    };
    replay(s.program, lines, s.limit).state.console.output
}

impl ActionView {
    /// The text that is to be shown.
    pub open spec fn text(self) -> Seq<char> {
        match self {
            ActionView::Read { text } => text,
            ActionView::More { text } => text,
            ActionView::End { text, result } => text,
        }
    }
}

/// A program and the lines it was given so far.
pub struct Session {
    program: AstNode,
    lines: Vec<String>,
    shown: usize,
    limit: u64,
}

impl View for Session {
    type V = SessionView;

    closed spec fn view(&self) -> SessionView {
        SessionView {
            program: self.program@,
            lines: names_model(&self.lines),
            shown: self.shown as nat,
            limit: self.limit as nat,
        }
    }
}

impl Session {
    /// The program can be evaluated, under a bound of at least 2.
    #[verifier::type_invariant]
    closed spec fn runnable(&self) -> bool {
        self.program@.evaluable() && self.limit >= 2
    }

    /// A session of `program` in which no line was read and nothing shown.
    pub fn new(program: AstNode) -> (r: Session)
        requires
            program@.evaluable(),
        ensures
            r@ == (SessionView {
                program: program@,
                lines: Seq::empty(),
                shown: 0,
                limit: FIRST_LIMIT as nat,
            }),
    {
        let r = Session { program, lines: Vec::new(), shown: 0, limit: FIRST_LIMIT };
        assert(r@.lines =~= Seq::empty());
        r
    }

    /// Takes a step: with `line`, where the last step asked for one.
    pub fn step(self, line: Option<String>) -> (r: (Session, Action))
        ensures
            (r.0@, r.1@) == step(
                self@,
                match line {
                    Some(l) => Some(l@),
                    None => None,
                },
            ),
    {
        proof {
            use_type_invariant(&self);
        }
        let Session { program, lines, shown, limit } = self;
        let mut lines = lines;
        let ghost before = names_model(&lines);
        match line {
            Some(l) => {
                lines.push(l);
                assert(names_model(&lines) =~= before.push(l@));
            },
            None => {},
        }
        let given = clone_names(&lines);
        assert(Seq::new(given@.len(), |i: int| given@[i]@) =~= names_model(&lines));
        let mut evaluator = Evaluator::with_console(Console::with_input(given), limit);
        let result = evaluator.run(&program);
        let output = evaluator.console().output();
        let len = output.unicode_len();
        let text = if shown <= len {
            String::from_str(output.substring_char(shown, len))
        } else {
            String::new()
        };
        let stopped = match &result {
            Ok(_) => false,
            Err(e) => *e == String::from_str("Evaluation limit exceeded"),
        };
        if evaluator.console().starved() {
            (Session { program, lines, shown: len, limit }, Action::Read { text })
        } else if stopped && limit < u64::MAX {
            let next = if limit <= u64::MAX / 2 {
                limit * 2
            } else {
                u64::MAX
            };
            (Session { program, lines, shown: len, limit: next }, Action::More { text })
        } else {
            (Session { program, lines, shown: len, limit }, Action::End { text, result })
        }
    }
}

} // verus!
