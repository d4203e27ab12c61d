//! Crash diagnostics for a running process: where the text about a panic
//! goes, how dump files are numbered, and the order in which a panic hook
//! does its work.
//!
//! The hook itself, the debugger and the files belong to the program that
//! uses this library. The library decides: [`WinPicnic::plan`] lists what a
//! hook has to do for one panic, [`act`] says what is done for each step
//! given whether a debugger is attached, [`route`] says where one text is
//! delivered, and [`minidump`] names dump files and leads a dump from its
//! start to its result.

use vstd::prelude::*;

pub mod context;
pub mod debugger;
pub mod err;
pub mod minidump;
pub mod text;

pub use crate::context::{CrashContext, CrashContextView, Location};
pub use crate::err::Error;
use crate::minidump::{DumpInfo, DumpInfoView};

verus! {

/// Where the text about a panic is delivered.
#[derive(Debug, PartialEq, Eq)]
pub enum PanicOutput {
    /// Nowhere: for a process without a console, such as a service.
    Discard,
    /// Standard output.
    Stdout,
    /// Standard error.
    Stderr,
    /// The output channel of an attached debugger; nowhere while none is
    /// attached.
    Debugger,
    /// The end of a file, which is created if it does not exist. What goes
    /// wrong with the file is passed over in silence.
    FileAppend(String),
}

/// A [`PanicOutput`] with its path as a sequence of characters.
pub enum PanicOutputView {
    Discard,
    Stdout,
    Stderr,
    Debugger,
    FileAppend(Seq<char>),
}

impl View for PanicOutput {
    type V = PanicOutputView;

    open spec fn view(&self) -> PanicOutputView {
        match self {
            PanicOutput::Discard => PanicOutputView::Discard,
            PanicOutput::Stdout => PanicOutputView::Stdout,
            PanicOutput::Stderr => PanicOutputView::Stderr,
            PanicOutput::Debugger => PanicOutputView::Debugger,
            PanicOutput::FileAppend(path) => PanicOutputView::FileAppend(path@),
        }
    }
}

impl Clone for PanicOutput {
    fn clone(&self) -> (sink: PanicOutput)
        ensures
            sink == *self,
    {
        match self {
            PanicOutput::Discard => PanicOutput::Discard,
            PanicOutput::Stdout => PanicOutput::Stdout,
            PanicOutput::Stderr => PanicOutput::Stderr,
            PanicOutput::Debugger => PanicOutput::Debugger,
            PanicOutput::FileAppend(path) => PanicOutput::FileAppend(path.clone()),
        }
    }
}

impl PanicOutput {
    /// Whether two sinks are the same one.
    pub fn same(&self, other: &PanicOutput) -> (r: bool)
        ensures
            r == (self@ == other@),
    {
        match (self, other) {
            (PanicOutput::Discard, PanicOutput::Discard) => true,
            (PanicOutput::Stdout, PanicOutput::Stdout) => true,
            (PanicOutput::Stderr, PanicOutput::Stderr) => true,
            (PanicOutput::Debugger, PanicOutput::Debugger) => true,
            (PanicOutput::FileAppend(a), PanicOutput::FileAppend(b)) => *a == *b,
            _ => false,
        }
    }
}

/// What to do with one text.
#[derive(Debug, PartialEq, Eq)]
pub enum Delivery {
    /// Nothing.
    Discard,
    /// Write it to standard output, passing over a failure.
    Stdout(String),
    /// Write it to standard error, passing over a failure.
    Stderr(String),
    /// Hand it to the debugger's output channel.
    Debugger(String),
    /// Open the file for appending, creating it if it does not exist, write
    /// the text at its end and close it, passing over a failure. What the
    /// file held before stays.
    Append { path: String, text: String },
}

/// A [`Delivery`] with its texts as sequences of characters.
pub enum DeliveryView {
    Discard,
    Stdout(Seq<char>),
    Stderr(Seq<char>),
    Debugger(Seq<char>),
    Append { path: Seq<char>, text: Seq<char> },
}

impl View for Delivery {
    type V = DeliveryView;

    open spec fn view(&self) -> DeliveryView {
        match self {
            Delivery::Discard => DeliveryView::Discard,
            Delivery::Stdout(t) => DeliveryView::Stdout(t@),
            Delivery::Stderr(t) => DeliveryView::Stderr(t@),
            Delivery::Debugger(t) => DeliveryView::Debugger(t@),
            Delivery::Append { path, text } => DeliveryView::Append { path: path@, text: text@ },
        }
    }
}

/// Where `text` goes for `sink`, given whether a debugger is attached.
pub open spec fn delivery(sink: PanicOutputView, text: Seq<char>, debugger: bool) -> DeliveryView {
    match sink {
        PanicOutputView::Discard => DeliveryView::Discard,
        PanicOutputView::Stdout => DeliveryView::Stdout(text),
        PanicOutputView::Stderr => DeliveryView::Stderr(text),
        PanicOutputView::Debugger => if debugger {
            DeliveryView::Debugger(text)
        } else {
            DeliveryView::Discard
        },
        PanicOutputView::FileAppend(path) => DeliveryView::Append { path, text },
    }
}

/// Where `text` is delivered for `sink`: to exactly one place, or nowhere.
/// `debugger_present` says whether a debugger is attached at this moment;
/// without one, text for the debugger is dropped.
pub fn route(sink: &PanicOutput, text: &str, debugger_present: bool) -> (d: Delivery)
    ensures
        d@ == delivery(sink@, text@, debugger_present),
{
    match sink {
        PanicOutput::Discard => Delivery::Discard,
        PanicOutput::Stdout => Delivery::Stdout(text.to_owned()),
        PanicOutput::Stderr => Delivery::Stderr(text.to_owned()),
        PanicOutput::Debugger => {
            if debugger_present {
                Delivery::Debugger(text.to_owned())
            } else {
                Delivery::Discard
            }
        },
        PanicOutput::FileAppend(path) => Delivery::Append {
            path: path.clone(),
            text: text.to_owned(),
        },
    }
}

/// What a delivery means for the content of the file `file`, which held
/// `before`: text appended to that file stands after what it held, and
/// nothing else touches it. The program that writes the file has to open
/// it accordingly.
pub open spec fn file_after(before: Seq<char>, file: Seq<char>, d: DeliveryView) -> Seq<char> {
    match d {
        DeliveryView::Append { path, text } => if path == file {
            before + text
        } else {
            before
        },
        _ => before,
    }
}

/// By what a delivery means, whatever is routed, a file keeps what it
/// held: it gains the text at its end where it is the sink, and is left
/// as it was where it is not.
pub proof fn lemma_append_keeps_content(
    before: Seq<char>,
    file: Seq<char>,
    sink: PanicOutputView,
    text: Seq<char>,
    debugger: bool,
)
    ensures
        file_after(before, file, delivery(sink, text, debugger)) == if sink
            == PanicOutputView::FileAppend(file) {
            before + text
        } else {
            before
        },
        before.is_prefix_of(file_after(before, file, delivery(sink, text, debugger))),
{
}

/// Without a debugger, text for the debugger goes nowhere.
pub proof fn lemma_debugger_absent(text: Seq<char>)
    ensures
        delivery(PanicOutputView::Debugger, text, false) == DeliveryView::Discard,
{
}

/// What a panic hook does when a panic is raised.
#[derive(Debug, PartialEq, Eq)]
pub struct WinPicnic {
    /// Where the report is written: to each of these in turn. A sink that
    /// is listed again is passed over there, so none is written to twice.
    pub output: Vec<PanicOutput>,
    /// Whether the hook ends in a breakpoint when a debugger is attached.
    pub brk: bool,
    /// Whether the hook plays three short notes.
    pub beep: bool,
    /// The dump to take, if any.
    pub mdump: Option<DumpInfo>,
}

/// A [`WinPicnic`] with views in place of its texts.
pub struct WinPicnicView {
    pub output: Seq<PanicOutputView>,
    pub brk: bool,
    pub beep: bool,
    pub mdump: Option<DumpInfoView>,
}

/// The views of a list of sinks.
pub open spec fn sinks_view(sinks: Seq<PanicOutput>) -> Seq<PanicOutputView> {
    Seq::new(sinks.len(), |i: int| sinks[i]@)
}

impl View for WinPicnic {
    type V = WinPicnicView;

    open spec fn view(&self) -> WinPicnicView {
        WinPicnicView {
            output: sinks_view(self.output@),
            brk: self.brk,
            beep: self.beep,
            mdump: match self.mdump {
                Some(d) => Some(d@),
                None => None,
            },
        }
    }
}

/// One thing that a panic hook does.
#[derive(Debug, PartialEq, Eq)]
pub enum HookStep {
    /// Deliver `text` for `sink`, as [`route`] says.
    Route { sink: PanicOutput, text: String },
    /// Take this dump on a thread of its own and wait for it, whatever it
    /// comes to.
    Dump(DumpInfo),
    /// Play a tone of `freq` hertz for `millis` milliseconds.
    Beep { freq: u32, millis: u32 },
    /// Trigger a breakpoint if a debugger is attached at this moment.
    Break,
}

/// A [`HookStep`] with views in place of its texts.
pub enum HookStepView {
    Route { sink: PanicOutputView, text: Seq<char> },
    Dump(DumpInfoView),
    Beep { freq: u32, millis: u32 },
    Break,
}

impl View for HookStep {
    type V = HookStepView;

    open spec fn view(&self) -> HookStepView {
        match self {
            HookStep::Route { sink, text } => HookStepView::Route { sink: sink@, text: text@ },
            HookStep::Dump(d) => HookStepView::Dump(d@),
            HookStep::Beep { freq, millis } => HookStepView::Beep { freq: *freq, millis: *millis },
            HookStep::Break => HookStepView::Break,
        }
    }
}

/// The views of a list of steps.
pub open spec fn steps_view(steps: Seq<HookStep>) -> Seq<HookStepView> {
    Seq::new(steps.len(), |i: int| steps[i]@)
}

/// The steps that deliver each of `texts` for one sink, in order.
pub open spec fn sink_steps(sink: PanicOutputView, texts: Seq<Seq<char>>) -> Seq<HookStepView> {
    Seq::new(texts.len(), |j: int| HookStepView::Route { sink, text: texts[j] })
}

/// The steps that deliver `texts` for each of `sinks`: all texts for the
/// first sink, then all for the second, and so on.
pub open spec fn route_steps(sinks: Seq<PanicOutputView>, texts: Seq<Seq<char>>) -> Seq<
    HookStepView,
>
    decreases sinks.len(),
{
    if sinks.len() == 0 {
        seq![]
    } else {
        route_steps(sinks.drop_last(), texts) + sink_steps(sinks.last(), texts)
    }
}

/// The three notes of the alert.
pub open spec fn beep_steps() -> Seq<HookStepView> {
    seq![
        HookStepView::Beep { freq: 740, millis: 100 },
        HookStepView::Beep { freq: 1760, millis: 100 },
        HookStepView::Beep { freq: 988, millis: 100 },
    ]
}

/// Whether no sink occurs twice in a list.
pub open spec fn no_repeats(sinks: Seq<PanicOutputView>) -> bool {
    forall|i: int, j: int| 0 <= i < j < sinks.len() ==> sinks[i] != sinks[j]
}

/// The sinks of a list, each once, in the order in which they first occur:
/// a sink that occurs again later is passed over there.
pub open spec fn first_of_each(sinks: Seq<PanicOutputView>) -> Seq<PanicOutputView>
    decreases sinks.len(),
{
    if sinks.len() == 0 {
        seq![]
    } else if first_of_each(sinks.drop_last()).contains(sinks.last()) {
        first_of_each(sinks.drop_last())
    } else {
        first_of_each(sinks.drop_last()).push(sinks.last())
    }
}

impl WinPicnicView {
    /// Whether no sink occurs twice.
    pub open spec fn distinct(self) -> bool {
        no_repeats(self.output)
    }

    /// The sinks that the report is written to: those listed, each once.
    pub open spec fn sinks(self) -> Seq<PanicOutputView> {
        first_of_each(self.output)
    }

    /// The step that takes the dump, where one is asked for.
    pub open spec fn dump_steps(self) -> Seq<HookStepView> {
        match self.mdump {
            Some(d) => seq![HookStepView::Dump(d)],
            None => seq![],
        }
    }

    /// The notes, where they are asked for.
    pub open spec fn alert_steps(self) -> Seq<HookStepView> {
        if self.beep {
            beep_steps()
        } else {
            seq![]
        }
    }

    /// The breakpoint, where it is asked for.
    pub open spec fn break_steps(self) -> Seq<HookStepView> {
        if self.brk {
            seq![HookStepView::Break]
        } else {
            seq![]
        }
    }

    /// What the hook does for one panic, in order: the report to every sink,
    /// once to each however often it is listed, the dump, the notes, the
    /// breakpoint.
    pub open spec fn plan(self, ctx: CrashContextView) -> Seq<HookStepView> {
        route_steps(self.sinks(), ctx.texts()) + self.dump_steps() + self.alert_steps()
            + self.break_steps()
    }
}

/// What is done where nothing else was asked for: the report goes to
/// standard error, and that is all.
pub open spec fn baseline() -> WinPicnicView {
    WinPicnicView { output: seq![PanicOutputView::Stderr], brk: false, beep: false, mdump: None }
}

/// Whether `sink` is among `sinks`.
fn holds(sinks: &Vec<PanicOutput>, sink: &PanicOutput) -> (found: bool)
    ensures
        found == sinks_view(sinks@).contains(sink@),
{
    let mut i: usize = 0;
    while i < sinks.len()
        invariant
            i <= sinks.len(),
            forall|k: int| 0 <= k < i ==> sinks_view(sinks@)[k] != sink@,
        decreases sinks.len() - i,
    {
        if sinks[i].same(sink) {
            assert(sinks_view(sinks@)[i as int] == sink@);
            return true;
        }
        i = i + 1;
    }
    false
}

impl Default for WinPicnic {
    /// The report goes to standard error, and nothing else is done.
    fn default() -> (picnic: WinPicnic)
        ensures
            picnic@ == baseline(),
            picnic@.distinct(),
    {
        let mut output: Vec<PanicOutput> = Vec::new();
        output.push(PanicOutput::Stderr);
        let picnic = WinPicnic { output, brk: false, beep: false, mdump: None };
        assert(picnic@.output =~= seq![PanicOutputView::Stderr]);
        picnic
    }
}

impl WinPicnic {
    /// Whether the report is written to `sink`.
    pub fn has_output(&self, sink: &PanicOutput) -> (found: bool)
        ensures
            found == self@.output.contains(sink@),
    {
        holds(&self.output, sink)
    }

    /// The sinks that the report is written to: those listed, each once, in
    /// the order in which they first occur.
    pub fn sinks(&self) -> (sinks: Vec<PanicOutput>)
        ensures
            sinks_view(sinks@) == self@.sinks(),
    {
        let ghost listed = self@.output;
        let mut sinks: Vec<PanicOutput> = Vec::new();
        let mut i: usize = 0;
        assert(sinks_view(sinks@) =~= first_of_each(listed.subrange(0, 0)));
        while i < self.output.len()
            invariant
                i <= self.output.len(),
                listed == self@.output,
                sinks_view(sinks@) == first_of_each(listed.subrange(0, i as int)),
            decreases self.output.len() - i,
        {
            let ghost before = sinks_view(sinks@);
            assert(listed.subrange(0, i + 1).drop_last() == listed.subrange(0, i as int));
            assert(listed.subrange(0, i + 1).last() == listed[i as int]);
            if !holds(&sinks, &self.output[i]) {
                sinks.push(self.output[i].clone());
                assert(sinks_view(sinks@) =~= before.push(listed[i as int]));
            }
            i = i + 1;
        }
        assert(listed.subrange(0, self.output.len() as int) == listed);
        sinks
    }

    /// Adds `sink` after the sinks that are there, unless it is among them
    /// already. Says whether it was added.
    pub fn add_output(&mut self, sink: PanicOutput) -> (added: bool)
        ensures
            added == !old(self)@.output.contains(sink@),
            final(self)@.output == if added {
                old(self)@.output.push(sink@)
            } else {
                old(self)@.output
            },
            final(self)@.brk == old(self)@.brk,
            final(self)@.beep == old(self)@.beep,
            final(self)@.mdump == old(self)@.mdump,
            old(self)@.distinct() ==> final(self)@.distinct(),
    {
        if self.has_output(&sink) {
            return false;
        }
        self.output.push(sink);
        assert(self@.output =~= old(self)@.output.push(sink@));
        true
    }

    /// What the hook does for the panic that `ctx` describes, step by step.
    ///
    /// The report goes to every sink once, however often the sink is
    /// listed. The steps are done in this order, and a step that fails does
    /// not keep the later ones from being done.
    pub fn plan(&self, ctx: &CrashContext) -> (steps: Vec<HookStep>)
        ensures
            steps_view(steps@) == self@.plan(ctx@),
    {
        let texts = ctx.texts();
        let outputs = self.sinks();
        let ghost sinks = self@.sinks();
        let ghost parts = ctx@.texts();
        let mut steps: Vec<HookStep> = Vec::new();
        let mut i: usize = 0;
        assert(steps_view(steps@) =~= route_steps(sinks.subrange(0, 0), parts));
        while i < outputs.len()
            invariant
                i <= outputs.len(),
                sinks == sinks_view(outputs@),
                parts == texts.deep_view(),
                steps_view(steps@) == route_steps(sinks.subrange(0, i as int), parts),
            decreases outputs.len() - i,
        {
            let ghost done = steps_view(steps@);
            let mut j: usize = 0;
            assert(steps_view(steps@) =~= done + sink_steps(sinks[i as int], parts.subrange(0, 0)));
            while j < texts.len()
                invariant
                    i < outputs.len(),
                    j <= texts.len(),
                    sinks == sinks_view(outputs@),
                    parts == texts.deep_view(),
                    steps_view(steps@) == done + sink_steps(
                        sinks[i as int],
                        parts.subrange(0, j as int),
                    ),
                decreases texts.len() - j,
            {
                let ghost before = steps_view(steps@);
                steps.push(HookStep::Route { sink: outputs[i].clone(), text: texts[j].clone() });
                assert(steps_view(steps@) =~= before.push(
                    HookStepView::Route { sink: sinks[i as int], text: parts[j as int] },
                ));
                assert(sink_steps(sinks[i as int], parts.subrange(0, j + 1)) =~= sink_steps(
                    sinks[i as int],
                    parts.subrange(0, j as int),
                ).push(HookStepView::Route { sink: sinks[i as int], text: parts[j as int] }));
                j = j + 1;
            }
            assert(parts.subrange(0, texts.len() as int) == parts);
            assert(sinks.subrange(0, i + 1).drop_last() == sinks.subrange(0, i as int));
            assert(sinks.subrange(0, i + 1).last() == sinks[i as int]);
            i = i + 1;
        }
        assert(sinks.subrange(0, outputs.len() as int) == sinks);
        let ghost routed = steps_view(steps@);
        match &self.mdump {
            Some(d) => {
                steps.push(HookStep::Dump(d.clone()));
            },
            None => {},
        }
        assert(steps_view(steps@) =~= routed + self@.dump_steps());
        if self.beep {
            steps.push(HookStep::Beep { freq: 740, millis: 100 });
            steps.push(HookStep::Beep { freq: 1760, millis: 100 });
            steps.push(HookStep::Beep { freq: 988, millis: 100 });
        }
        assert(steps_view(steps@) =~= routed + self@.dump_steps() + self@.alert_steps());
        if self.brk {
            steps.push(HookStep::Break);
        }
        assert(steps_view(steps@) =~= self@.plan(ctx@));
        steps
    }
}

/// What is done for one step of a hook's work.
#[derive(Debug, PartialEq, Eq)]
pub enum Act {
    /// Deliver a text.
    Deliver(Delivery),
    /// Take this dump on a thread of its own and wait for it, whatever it
    /// comes to.
    Dump(DumpInfo),
    /// Play a tone of `freq` hertz for `millis` milliseconds.
    Beep { freq: u32, millis: u32 },
    /// Trigger a breakpoint.
    Trap,
    /// Nothing.
    Nothing,
}

/// An [`Act`] with views in place of its texts.
pub enum ActView {
    Deliver(DeliveryView),
    Dump(DumpInfoView),
    Beep { freq: u32, millis: u32 },
    Trap,
    Nothing,
}

impl View for Act {
    type V = ActView;

    open spec fn view(&self) -> ActView {
        match self {
            Act::Deliver(d) => ActView::Deliver(d@),
            Act::Dump(d) => ActView::Dump(d@),
            Act::Beep { freq, millis } => ActView::Beep { freq: *freq, millis: *millis },
            Act::Trap => ActView::Trap,
            Act::Nothing => ActView::Nothing,
        }
    }
}

/// What is done for `step`, given whether a debugger is attached when the
/// step is reached: without one, text for the debugger is dropped and no
/// breakpoint is triggered.
pub open spec fn act_of(step: HookStepView, debugger: bool) -> ActView {
    match step {
        HookStepView::Route { sink, text } => ActView::Deliver(delivery(sink, text, debugger)),
        HookStepView::Dump(d) => ActView::Dump(d),
        HookStepView::Beep { freq, millis } => ActView::Beep { freq, millis },
        HookStepView::Break => if debugger {
            ActView::Trap
        } else {
            ActView::Nothing
        },
    }
}

/// Whether an act leaves everything as it is: nothing is written, played,
/// dumped or stopped.
pub open spec fn idle(act: ActView) -> bool {
    act == ActView::Nothing || act == ActView::Deliver(DeliveryView::Discard)
}

/// What is done for `step`. `debugger_present` says whether a debugger is
/// attached at the moment the step is reached.
pub fn act(step: HookStep, debugger_present: bool) -> (a: Act)
    ensures
        a@ == act_of(step@, debugger_present),
{
    match step {
        HookStep::Route { sink, text } => Act::Deliver(
            route(&sink, text.as_str(), debugger_present),
        ),
        HookStep::Dump(d) => Act::Dump(d),
        HookStep::Beep { freq, millis } => Act::Beep { freq, millis },
        HookStep::Break => {
            if debugger_present {
                Act::Trap
            } else {
                Act::Nothing
            }
        },
    }
}

/// A breakpoint is triggered exactly where one was asked for and a debugger
/// is attached when the last step is reached; it is that step, so there is
/// one at most, and every other step has been done by then.
pub proof fn lemma_trap(picnic: WinPicnicView, ctx: CrashContextView)
    ensures
        forall|k: int, d: bool|
            0 <= k < picnic.plan(ctx).len() && #[trigger] act_of(picnic.plan(ctx)[k], d) is Trap
                ==> picnic.brk && d && k == picnic.plan(ctx).len() - 1,
        forall|d: bool|
            picnic.brk && d ==> picnic.plan(ctx).len() > 0 && #[trigger] act_of(
                picnic.plan(ctx).last(),
                d,
            ) is Trap,
{
    lemma_plan_break_and_dump(picnic, ctx);
    let plan = picnic.plan(ctx);
    assert forall|k: int, d: bool| 0 <= k < plan.len() && #[trigger] act_of(plan[k], d) is Trap
        implies picnic.brk && d && k == plan.len() - 1 by {
        assert(plan[k] is Break);
        assert(plan.contains(HookStepView::Break));
    }
    if picnic.brk {
        assert(plan.last() == HookStepView::Break);
    }
}

/// A hook that was asked for neither a dump nor the notes, and writes to
/// no sink but the debugger, leaves everything as it is while no debugger
/// is attached, whether or not a breakpoint was asked for.
pub proof fn lemma_quiet_without_debugger(picnic: WinPicnicView, ctx: CrashContextView)
    requires
        picnic.mdump is None,
        !picnic.beep,
        forall|i: int|
            0 <= i < picnic.output.len() ==> picnic.output[i] == PanicOutputView::Discard
                || picnic.output[i] == PanicOutputView::Debugger,
    ensures
        forall|k: int|
            0 <= k < picnic.plan(ctx).len() ==> idle(#[trigger] act_of(picnic.plan(ctx)[k], false)),
{
    let texts = ctx.texts();
    let routed = route_steps(picnic.sinks(), texts);
    let plan = picnic.plan(ctx);
    lemma_route_steps_len(picnic.sinks(), texts);
    lemma_first_of_each(picnic.output);
    assert forall|k: int| 0 <= k < plan.len() implies idle(#[trigger] act_of(plan[k], false)) by {
        if k < routed.len() {
            assert(plan[k] == routed[k]);
            lemma_route_steps_sink(picnic.sinks(), texts, k);
        } else {
            assert(plan[k] == HookStepView::Break);
        }
    }
}

/// Every step that delivers the report writes to one of the sinks.
pub proof fn lemma_route_steps_sink(sinks: Seq<PanicOutputView>, texts: Seq<Seq<char>>, k: int)
    requires
        0 <= k < route_steps(sinks, texts).len(),
    ensures
        route_steps(sinks, texts)[k] is Route,
        sinks.contains(route_steps(sinks, texts)[k]->Route_sink),
        texts.contains(route_steps(sinks, texts)[k]->Route_text),
    decreases sinks.len(),
{
    let head = route_steps(sinks.drop_last(), texts);
    if k < head.len() {
        lemma_route_steps_sink(sinks.drop_last(), texts, k);
        let i = choose|i: int|
            0 <= i < sinks.drop_last().len() && sinks.drop_last()[i] == head[k]->Route_sink;
        assert(sinks[i] == head[k]->Route_sink);
    } else {
        assert(route_steps(sinks, texts)[k] == sink_steps(sinks.last(), texts)[k - head.len()]);
        assert(sinks[sinks.len() - 1] == sinks.last());
        assert(texts[k - head.len()] == route_steps(sinks, texts)[k]->Route_text);
    }
}

/// The hook of a process: not installed at first, then installed with what
/// it was last given.
#[derive(Debug)]
pub struct Hook {
    picnic: Option<WinPicnic>,
}

impl View for Hook {
    type V = Option<WinPicnicView>;

    closed spec fn view(&self) -> Option<WinPicnicView> {
        match self.picnic {
            Some(p) => Some(p@),
            None => None,
        }
    }
}

/// What a hook does for a panic: what it was installed with, or, while none
/// is installed, what is done where nothing was asked for.
pub open spec fn hook_plan(hook: Option<WinPicnicView>, ctx: CrashContextView) -> Seq<
    HookStepView,
> {
    match hook {
        Some(picnic) => picnic.plan(ctx),
        None => baseline().plan(ctx),
    }
}

impl Hook {
    /// The hook before anything is installed.
    pub fn new() -> (hook: Hook)
        ensures
            hook@ is None,
    {
        Hook { picnic: None }
    }

    /// Whether a hook is installed.
    pub fn is_installed(&self) -> (installed: bool)
        ensures
            installed == self@ is Some,
    {
        self.picnic.is_some()
    }

    /// Installs `picnic`, in place of whatever was installed before: the
    /// last one installed counts.
    pub fn install(&mut self, picnic: WinPicnic)
        ensures
            final(self)@ == Some(picnic@),
    {
        self.picnic = Some(picnic);
    }

    /// What the hook does for the panic that `ctx` describes, step by step.
    pub fn on_panic(&self, ctx: &CrashContext) -> (steps: Vec<HookStep>)
        ensures
            steps_view(steps@) == hook_plan(self@, ctx@),
    {
        match &self.picnic {
            Some(picnic) => picnic.plan(ctx),
            None => {
                let baseline = WinPicnic::default();
                baseline.plan(ctx)
            },
        }
    }
}

/// Passing over repeats leaves a list in which no sink occurs twice and
/// which holds the same sinks; a list without repeats stays as it is.
pub proof fn lemma_first_of_each(sinks: Seq<PanicOutputView>)
    ensures
        no_repeats(first_of_each(sinks)),
        forall|s: PanicOutputView| #[trigger] first_of_each(sinks).contains(s) <==> sinks.contains(s),
        no_repeats(sinks) ==> first_of_each(sinks) == sinks,
        first_of_each(sinks).len() <= sinks.len(),
    decreases sinks.len(),
{
    if sinks.len() > 0 {
        let front = sinks.drop_last();
        let kept = first_of_each(front);
        let all = first_of_each(sinks);
        lemma_first_of_each(front);
        assert forall|s: PanicOutputView| #[trigger] all.contains(s) <==> sinks.contains(s) by {
            if all.contains(s) {
                let k = choose|k: int| 0 <= k < all.len() && all[k] == s;
                if k < kept.len() {
                    assert(kept.contains(all[k]));
                    assert(front.contains(s));
                    let i = choose|i: int| 0 <= i < front.len() && front[i] == s;
                    assert(sinks[i] == s);
                } else {
                    assert(sinks[sinks.len() - 1] == s);
                }
            }
            if sinks.contains(s) {
                let i = choose|i: int| 0 <= i < sinks.len() && sinks[i] == s;
                if i < front.len() {
                    assert(front[i] == s);
                    assert(kept.contains(s));
                    let k = choose|k: int| 0 <= k < kept.len() && kept[k] == s;
                    assert(all[k] == s);
                } else if kept.contains(s) {
                } else {
                    assert(all[kept.len() as int] == s);
                }
            }
        }
        if no_repeats(sinks) {
            assert(no_repeats(front)) by {
                assert forall|i: int, j: int| 0 <= i < j < front.len() implies front[i]
                    != front[j] by {
                    assert(front[i] == sinks[i] && front[j] == sinks[j]);
                }
            }
            if front.contains(sinks.last()) {
                let i = choose|i: int| 0 <= i < front.len() && front[i] == sinks.last();
                assert(sinks[i] == sinks[sinks.len() - 1]);
            }
            assert(all =~= sinks);
        }
    }
}

/// Where a step stands in the order of a hook's work: the report first,
/// then the dump, the notes, and the breakpoint.
pub open spec fn rank(step: HookStepView) -> int {
    match step {
        HookStepView::Route { .. } => 0,
        HookStepView::Dump(_) => 1,
        HookStepView::Beep { .. } => 2,
        HookStepView::Break => 3,
    }
}

/// Every text is delivered once for every sink.
pub proof fn lemma_route_steps_len(sinks: Seq<PanicOutputView>, texts: Seq<Seq<char>>)
    ensures
        route_steps(sinks, texts).len() == sinks.len() * texts.len(),
    decreases sinks.len(),
{
    if sinks.len() > 0 {
        lemma_route_steps_len(sinks.drop_last(), texts);
        assert((sinks.len() - 1) * texts.len() + texts.len() == sinks.len() * texts.len())
            by (nonlinear_arith);
    } else {
        assert(sinks.len() * texts.len() == 0) by (nonlinear_arith)
            requires
                sinks.len() == 0,
        ;
    }
}

/// The texts for one sink stand together, in their order, and the sinks
/// follow each other in theirs: text `j` for sink `i` is step
/// `i * texts.len() + j`.
pub proof fn lemma_route_steps_at(
    sinks: Seq<PanicOutputView>,
    texts: Seq<Seq<char>>,
    i: int,
    j: int,
)
    requires
        0 <= i < sinks.len(),
        0 <= j < texts.len(),
    ensures
        0 <= i * texts.len() + j < route_steps(sinks, texts).len(),
        route_steps(sinks, texts)[i * texts.len() + j] == (HookStepView::Route {
            sink: sinks[i],
            text: texts[j],
        }),
    decreases sinks.len(),
{
    let n = texts.len() as int;
    lemma_route_steps_len(sinks, texts);
    lemma_route_steps_len(sinks.drop_last(), texts);
    assert(0 <= i * n && i * n + n <= sinks.len() * n) by (nonlinear_arith)
        requires
            0 <= i < sinks.len(),
            0 <= n,
    ;
    if i < sinks.len() - 1 {
        lemma_route_steps_at(sinks.drop_last(), texts, i, j);
    } else {
        assert(route_steps(sinks, texts)[(sinks.len() - 1) * n + j] == sink_steps(
            sinks.last(),
            texts,
        )[j]);
    }
}

/// The steps that deliver the report do nothing else.
pub proof fn lemma_route_steps_route(sinks: Seq<PanicOutputView>, texts: Seq<Seq<char>>)
    ensures
        forall|k: int|
            0 <= k < route_steps(sinks, texts).len() ==> #[trigger] rank(
                route_steps(sinks, texts)[k],
            ) == 0,
    decreases sinks.len(),
{
    if sinks.len() > 0 {
        lemma_route_steps_route(sinks.drop_last(), texts);
        let head = route_steps(sinks.drop_last(), texts);
        let all = route_steps(sinks, texts);
        assert forall|k: int| 0 <= k < all.len() implies #[trigger] rank(all[k]) == 0 by {
            if k < head.len() {
                assert(all[k] == head[k]);
            } else {
                assert(all[k] == sink_steps(sinks.last(), texts)[k - head.len()]);
            }
        }
    }
}

/// The order of a hook's work is fixed: the whole report is delivered
/// before the dump is taken, the dump before the notes are played, and
/// all of them before the breakpoint.
pub proof fn lemma_plan_order(picnic: WinPicnicView, ctx: CrashContextView)
    ensures
        forall|a: int, b: int|
            0 <= a <= b < picnic.plan(ctx).len() ==> rank(#[trigger] picnic.plan(ctx)[a]) <= rank(
                #[trigger] picnic.plan(ctx)[b],
            ),
{
    lemma_route_steps_route(picnic.sinks(), ctx.texts());
    let routed = route_steps(picnic.sinks(), ctx.texts());
    let plan = picnic.plan(ctx);
    assert forall|a: int, b: int| 0 <= a <= b < plan.len() implies rank(#[trigger] plan[a])
        <= rank(#[trigger] plan[b]) by {
        if a < routed.len() {
            assert(plan[a] == routed[a]);
        }
        if b < routed.len() {
            assert(plan[b] == routed[b]);
        }
    }
}

/// A breakpoint is the last step of all, and there is one exactly where it
/// was asked for; the dump is taken exactly where one was asked for, as it
/// was asked for.
pub proof fn lemma_plan_break_and_dump(picnic: WinPicnicView, ctx: CrashContextView)
    ensures
        forall|k: int|
            0 <= k < picnic.plan(ctx).len() && #[trigger] picnic.plan(ctx)[k] is Break ==> k
                == picnic.plan(ctx).len() - 1,
        picnic.plan(ctx).contains(HookStepView::Break) <==> picnic.brk,
        forall|d: DumpInfoView| #[trigger]
            picnic.plan(ctx).contains(HookStepView::Dump(d)) <==> picnic.mdump == Some(d),
{
    lemma_route_steps_route(picnic.sinks(), ctx.texts());
    let routed = route_steps(picnic.sinks(), ctx.texts());
    let plan = picnic.plan(ctx);
    assert forall|k: int| 0 <= k < plan.len() && k < routed.len() implies rank(#[trigger] plan[k])
        == 0 by {
        assert(plan[k] == routed[k]);
    }
    if picnic.brk {
        assert(plan[plan.len() - 1] == HookStepView::Break);
    }
    assert forall|d: DumpInfoView| #[trigger]
        plan.contains(HookStepView::Dump(d)) <==> picnic.mdump == Some(d) by {
        if picnic.mdump == Some(d) {
            assert(plan[routed.len() as int] == HookStepView::Dump(d));
        }
        if plan.contains(HookStepView::Dump(d)) {
            let k = choose|k: int| 0 <= k < plan.len() && plan[k] == HookStepView::Dump(d);
            assert(rank(plan[k]) == 1);
        }
    }
}

/// The version of this crate.
pub fn version() -> (v: &'static str)
    ensures
        v@ == "0.2.1"@,
{
    "0.2.1"
}

/// The length of a tone in whole milliseconds, as far as 32 bits hold it:
/// a longer one is cut to the longest that they hold.
pub fn beep_millis(millis: u128) -> (ms: u32)
    ensures
        ms as int == if millis > 0xffff_ffff {
            0xffff_ffff
        } else {
            millis as int
        },
{
    if millis > 0xffff_ffff {
        0xffff_ffff
    } else {
        millis as u32
    }
}

} // verus!
