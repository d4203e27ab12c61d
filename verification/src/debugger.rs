//! What is said to a debugger, and when the process waits or stops for one.

use vstd::prelude::*;
use vstd::string::StringExecFns;
use crate::context::{trace_block, trace_text, CrashContext, CrashContextView};
use crate::text::{chars_of, decimal_text, push_decimal};

verus! {

/// Whether the debugger's panic hook ends in a breakpoint.
#[derive(Clone, Copy, Debug, PartialEq, Eq, Structural)]
pub enum OnPanic {
    Break,
    NoBreak,
}

/// The time between two looks for a debugger, in milliseconds: short enough
/// that nobody notices the delay.
pub const POLL_MILLIS: u64 = 100;

/// What to do while waiting for a debugger.
#[derive(Clone, Copy, Debug, PartialEq, Eq, Structural)]
pub enum Wait {
    /// Sleep for so many milliseconds, then look again.
    Sleep(u64),
    /// A debugger is attached: go on.
    Proceed,
}

/// One round of waiting for a debugger: go on once one is attached, else
/// sleep a moment and look again. There is no limit to the number of rounds.
pub fn wait_step(present: bool) -> (w: Wait)
    ensures
        w == if present {
            Wait::Proceed
        } else {
            Wait::Sleep(POLL_MILLIS)
        },
{
    if present {
        Wait::Proceed
    } else {
        Wait::Sleep(POLL_MILLIS)
    }
}

/// What stands in for a text that cannot be handed to the debugger.
pub open spec fn placeholder() -> Seq<char> {
    "<text withheld: it holds a NUL character>"@
}

/// What the debugger is handed for `text`: the text itself, or the
/// placeholder where it holds a NUL character, which would cut it short.
pub open spec fn shown(text: Seq<char>) -> Seq<char> {
    if text.contains('\0') {
        placeholder()
    } else {
        text
    }
}

/// The text to hand to the debugger's output channel for `text`. A text
/// that the channel cannot take is replaced, never reported as an error.
pub fn output_text(text: &str) -> (out: String)
    ensures
        out@ == shown(text@),
{
    let chars = chars_of(text);
    let mut i: usize = 0;
    while i < chars.len()
        invariant
            i <= chars.len(),
            chars@ == text@,
            forall|k: int| 0 <= k < i ==> text@[k] != '\0',
        decreases chars.len() - i,
    {
        if chars[i] == '\0' {
            assert(text@[i as int] == '\0');
            return String::from_str("<text withheld: it holds a NUL character>");
        }
        i = i + 1;
    }
    text.to_owned()
}

/// One thing that the debugger's panic hook does.
#[derive(Debug, PartialEq, Eq)]
pub enum DebugStep {
    /// Hand this text to the debugger's output channel.
    Output(String),
    /// Trigger a breakpoint.
    Break,
}

/// A [`DebugStep`] with its text as a sequence of characters.
pub enum DebugStepView {
    Output(Seq<char>),
    Break,
}

impl View for DebugStep {
    type V = DebugStepView;

    open spec fn view(&self) -> DebugStepView {
        match self {
            DebugStep::Output(t) => DebugStepView::Output(t@),
            DebugStep::Break => DebugStepView::Break,
        }
    }
}

/// The views of a list of steps.
pub open spec fn debug_steps_view(steps: Seq<DebugStep>) -> Seq<DebugStepView> {
    Seq::new(steps.len(), |i: int| steps[i]@)
}

/// The line that tells the debugger where the panic was raised.
pub open spec fn place_text(file: Seq<char>, line: nat) -> Seq<char> {
    "panic occurred in file '"@ + file + "' at line "@ + decimal_text(line) + seq!['\n']
}

/// What the debugger is told of a panic: the place, the message and a line
/// end, and the stack trace.
pub open spec fn report(ctx: CrashContextView) -> Seq<DebugStepView> {
    let place = match ctx.location {
        Some((file, line)) => seq![DebugStepView::Output(place_text(file, line))],
        None => seq![],
    };
    let message = match ctx.message {
        Some(m) => seq![DebugStepView::Output(m), DebugStepView::Output(seq!['\n'])],
        None => seq![],
    };
    place + message + seq![DebugStepView::Output(trace_text(ctx.backtrace))]
}

/// What the debugger's panic hook does: nothing without a debugger, else
/// the report and, where it is asked for, a breakpoint after it.
pub open spec fn debugger_plan(brk: OnPanic, ctx: CrashContextView, present: bool) -> Seq<
    DebugStepView,
> {
    if !present {
        seq![]
    } else if brk == OnPanic::Break {
        report(ctx).push(DebugStepView::Break)
    } else {
        report(ctx)
    }
}

/// The line that tells the debugger where the panic was raised.
pub fn place_line(file: &str, line: u32) -> (text: String)
    ensures
        text@ == place_text(file@, line as nat),
{
    let mut text = String::from_str("panic occurred in file '");
    text.append(file);
    text.append("' at line ");
    push_decimal(&mut text, line);
    text.push('\n');
    assert(text@ == place_text(file@, line as nat));
    text
}

/// What the debugger's panic hook does for the panic that `ctx` describes,
/// step by step. `present` says whether a debugger is attached when the
/// hook starts; without one the hook does nothing.
pub fn panic_steps(brk: OnPanic, ctx: &CrashContext, present: bool) -> (steps: Vec<DebugStep>)
    ensures
        debug_steps_view(steps@) == debugger_plan(brk, ctx@, present),
{
    let mut steps: Vec<DebugStep> = Vec::new();
    if !present {
        assert(debug_steps_view(steps@) =~= debugger_plan(brk, ctx@, present));
        return steps;
    }
    match &ctx.location {
        Some(l) => {
            steps.push(DebugStep::Output(place_line(l.file.as_str(), l.line)));
        },
        None => {},
    }
    let ghost place = debug_steps_view(steps@);
    match &ctx.message {
        Some(m) => {
            let mut end = String::new();
            end.push('\n');
            assert(end@ == seq!['\n']);
            steps.push(DebugStep::Output(m.clone()));
            steps.push(DebugStep::Output(end));
        },
        None => {},
    }
    steps.push(DebugStep::Output(trace_block(ctx.backtrace.as_str())));
    assert(debug_steps_view(steps@) =~= report(ctx@));
    match brk {
        OnPanic::Break => {
            steps.push(DebugStep::Break);
        },
        OnPanic::NoBreak => {},
    }
    assert(debug_steps_view(steps@) =~= debugger_plan(brk, ctx@, present));
    steps
}

/// Whatever is to be shown, the breakpoint comes after it: a breakpoint is
/// the last step, and there is one only where it was asked for and a
/// debugger is attached.
pub proof fn lemma_debugger_break_last(brk: OnPanic, ctx: CrashContextView, present: bool)
    ensures
        ({
            let plan = debugger_plan(brk, ctx, present);
            &&& forall|i: int| 0 <= i < plan.len() && plan[i] is Break ==> i == plan.len() - 1
            &&& plan.contains(DebugStepView::Break) <==> present && brk == OnPanic::Break
        }),
{
    let plan = debugger_plan(brk, ctx, present);
    if present && brk == OnPanic::Break {
        assert(plan[plan.len() - 1] == DebugStepView::Break);
    }
}

} // verus!
