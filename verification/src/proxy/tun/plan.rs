//! Commands in a row, and what becomes of their failures.

use vstd::prelude::*;

use crate::config;
use crate::proxy::tun::commands::{Command, CommandModel};
use crate::text;

verus! {

broadcast use {
    vstd::seq::group_seq_axioms,
    vstd::slice::group_slice_axioms,
    vstd::string::group_string_axioms,
    vstd::std_specs::vec::group_vec_axioms,
};

/// One step of a plan.
#[derive(Debug)]
pub enum Step {
    /// A command whose failure does not matter.
    Run(Command),
    /// A command whose failure ends the plan.
    Must { command: Command, failure: String },
    /// A route is changed, or where that fails deleted and added. The plan
    /// ends if that fails too and there is a text for it.
    Replace { change: Command, delete: Command, add: Command, failure: Option<String> },
    /// A file is written. The plan ends if that fails and there is a text
    /// for it.
    Write { path: String, content: String, failure: Option<String> },
    /// The device of this name must be there.
    AwaitDevice(String),
}

/// One step as its contracts speak of it.
pub enum StepModel {
    Run(CommandModel),
    Must { command: CommandModel, failure: Seq<char> },
    Replace {
        change: CommandModel,
        delete: CommandModel,
        add: CommandModel,
        failure: Option<Seq<char>>,
    },
    Write { path: Seq<char>, content: Seq<char>, failure: Option<Seq<char>> },
    AwaitDevice(Seq<char>),
}

impl View for Step {
    type V = StepModel;

    open spec fn view(&self) -> StepModel {
        match *self {
            Step::Run(c) => StepModel::Run(c@),
            Step::Must { command, failure } => StepModel::Must {
                command: command@,
                failure: failure@,
            },
            Step::Replace { change, delete, add, failure } => StepModel::Replace {
                change: change@,
                delete: delete@,
                add: add@,
                failure: config::opt_text(failure),
            },
            Step::Write { path, content, failure } => StepModel::Write {
                path: path@,
                content: content@,
                failure: config::opt_text(failure),
            },
            Step::AwaitDevice(name) => StepModel::AwaitDevice(name@),
        }
    }
}

/// Steps as their contracts speak of them.
pub open spec fn steps_of(v: Seq<Step>) -> Seq<StepModel> {
    v.map_values(|s: Step| s@)
}

/// One step more.
pub proof fn lemma_steps_push(v: Seq<Step>, s: Step)
    ensures
        steps_of(v.push(s)) == steps_of(v).push(s@),
{
    assert(steps_of(v.push(s)) =~= steps_of(v).push(s@));
}

// ---------------------------------------------------------------------------
// Carrying a plan out
// ---------------------------------------------------------------------------

/// The text for a device that did not come.
pub open spec fn no_device_text(name: Seq<char>) -> Seq<char> {
    "TUN device "@ + name + " did not appear within 2 seconds"@
}

/// A plan while it is carried out.
pub struct Plan {
    steps: Vec<Step>,
    at: usize,
    stage: u8,
    failure: Option<String>,
}

/// A plan as its contracts speak of it.
pub struct PlanModel {
    pub steps: Seq<StepModel>,
    /// The step that is carried out.
    pub at: nat,
    /// The part of it, for a route that is replaced.
    pub stage: nat,
    pub failure: Option<Seq<char>>,
}

impl View for Plan {
    type V = PlanModel;

    closed spec fn view(&self) -> PlanModel {
        PlanModel {
            steps: steps_of(self.steps@),
            at: self.at as nat,
            stage: self.stage as nat,
            failure: config::opt_text(self.failure),
        }
    }
}

/// What is to be done next in a plan.
#[derive(Debug)]
pub enum PlanAction<'a> {
    Run(&'a Command),
    Write { path: &'a String, content: &'a String },
    AwaitDevice(&'a String),
    Done,
    Failed(&'a String),
}

/// The plan goes on with its next step.
pub open spec fn advanced(m: PlanModel) -> PlanModel {
    PlanModel { at: m.at + 1, stage: 0, ..m }
}

/// The plan ends.
pub open spec fn broken(m: PlanModel, failure: Seq<char>) -> PlanModel {
    PlanModel { failure: Some(failure), ..m }
}

/// A plan after what was to be done succeeded or failed.
pub open spec fn after(m: PlanModel, ok: bool) -> PlanModel {
    if m.failure is Some || m.at >= m.steps.len() {
        m
    } else {
        match m.steps[m.at as int] {
            StepModel::Run(_) => advanced(m),
            StepModel::Must { command: _, failure } => if ok {
                advanced(m)
            } else {
                broken(m, failure)
            },
            StepModel::Replace { change: _, delete: _, add: _, failure } => if m.stage == 0 {
                if ok {
                    advanced(m)
                } else {
                    PlanModel { stage: 1, ..m }
                }
            } else if m.stage == 1 {
                PlanModel { stage: 2, ..m }
            } else if ok || failure is None {
                advanced(m)
            } else {
                broken(m, failure->0)
            },
            StepModel::Write { path: _, content: _, failure } => if ok || failure is None {
                advanced(m)
            } else {
                broken(m, failure->0)
            },
            StepModel::AwaitDevice(name) => if ok {
                advanced(m)
            } else {
                broken(m, no_device_text(name))
            },
        }
    }
}

/// What is to be done next in a plan.
pub open spec fn is_action(m: PlanModel, a: PlanAction<'_>) -> bool {
    if m.failure is Some {
        a matches PlanAction::Failed(e) && e@ == m.failure->0
    } else if m.at >= m.steps.len() {
        a is Done
    } else {
        match m.steps[m.at as int] {
            StepModel::Run(c) => a matches PlanAction::Run(x) && x@ == c,
            StepModel::Must { command, failure: _ } => a matches PlanAction::Run(x) && x@
                == command,
            StepModel::Replace { change, delete, add, failure: _ } => a matches PlanAction::Run(x)
                && x@ == (if m.stage == 0 {
                change
            } else if m.stage == 1 {
                delete
            } else {
                add
            }),
            StepModel::Write { path, content, failure: _ } => a matches PlanAction::Write {
                path: p,
                content: c,
            } && p@ == path && c@ == content,
            StepModel::AwaitDevice(name) => a matches PlanAction::AwaitDevice(n) && n@ == name,
        }
    }
}

impl Plan {
    /// A plan that begins.
    pub fn new(steps: Vec<Step>) -> (r: Self)
        ensures
            r@ == (PlanModel { steps: steps_of(steps@), at: 0, stage: 0, failure: None }),
    {
        Plan { steps, at: 0, stage: 0, failure: None }
    }

    /// What is to be done next.
    pub fn next(&self) -> (r: PlanAction<'_>)
        ensures
            is_action(self@, r),
    {
        if let Some(e) = &self.failure {
            return PlanAction::Failed(e);
        }
        if self.at >= self.steps.len() {
            return PlanAction::Done;
        }
        assert(self@.steps[self.at as int] == self.steps@[self.at as int]@);
        match &self.steps[self.at] {
            Step::Run(c) => PlanAction::Run(c),
            Step::Must { command, failure: _ } => PlanAction::Run(command),
            Step::Replace { change, delete, add, failure: _ } => if self.stage == 0 {
                PlanAction::Run(change)
            } else if self.stage == 1 {
                PlanAction::Run(delete)
            } else {
                PlanAction::Run(add)
            },
            Step::Write { path, content, failure: _ } => PlanAction::Write { path, content },
            Step::AwaitDevice(name) => PlanAction::AwaitDevice(name),
        }
    }

    /// What was to be done succeeded or failed.
    pub fn on_result(&mut self, ok: bool)
        ensures
            final(self)@ == after(old(self)@, ok),
    {
        if self.failure.is_some() || self.at >= self.steps.len() {
            return;
        }
        assert(self@.steps[self.at as int] == self.steps@[self.at as int]@);
        let mut failure: Option<String> = None;
        let mut stage: u8 = 0;
        let mut on: bool = true;
        match &self.steps[self.at] {
            Step::Run(_) => {},
            Step::Must { command: _, failure: f } => {
                if !ok {
                    on = false;
                    failure = Some(f.clone());
                }
            },
            Step::Replace { change: _, delete: _, add: _, failure: f } => {
                if self.stage == 0 {
                    if !ok {
                        on = false;
                        stage = 1;
                    }
                } else if self.stage == 1 {
                    on = false;
                    stage = 2;
                } else if !ok {
                    if let Some(t) = f {
                        on = false;
                        stage = self.stage;
                        failure = Some(t.clone());
                    }
                }
            },
            Step::Write { path: _, content: _, failure: f } => {
                if !ok {
                    if let Some(t) = f {
                        on = false;
                        stage = self.stage;
                        failure = Some(t.clone());
                    }
                }
            },
            Step::AwaitDevice(name) => {
                if !ok {
                    on = false;
                    stage = self.stage;
                    let mut out: Vec<char> = Vec::new();
                    text::append_str(&mut out, "TUN device ");
                    text::append_str(&mut out, name.as_str());
                    text::append_str(&mut out, " did not appear within 2 seconds");
                    assert(out@ =~= no_device_text(name@));
                    failure = Some(text::string_of(out.as_slice()));
                }
            },
        }
        if on {
            self.at = self.at + 1;
            self.stage = 0;
        } else if failure.is_some() {
            self.failure = failure;
        } else {
            self.stage = stage;
        }
    }
}

/// The step cannot end a plan.
pub open spec fn is_lenient(s: StepModel) -> bool {
    match s {
        StepModel::Run(_) => true,
        StepModel::Must { command: _, failure: _ } => false,
        StepModel::Replace { change: _, delete: _, add: _, failure } => failure is None,
        StepModel::Write { path: _, content: _, failure } => failure is None,
        StepModel::AwaitDevice(_) => false,
    }
}

/// No step can end a plan.
pub open spec fn all_lenient(steps: Seq<StepModel>) -> bool {
    forall|i: int| 0 <= i < steps.len() ==> is_lenient(#[trigger] steps[i])
}

/// A plan of steps whose failure does not matter never fails, whatever its
/// commands do.
pub proof fn law_lenient_plan_never_fails(m: PlanModel, ok: bool)
    requires
        all_lenient(m.steps),
        m.failure is None,
    ensures
        after(m, ok).failure is None,
        all_lenient(after(m, ok).steps),
{
}

/// What is left of a plan.
pub open spec fn plan_measure(m: PlanModel) -> int {
    if m.failure is Some || m.at >= m.steps.len() {
        0
    } else {
        3 * (m.steps.len() - m.at) - m.stage
    }
}

/// Every result brings a plan nearer to its end.
pub proof fn law_plan_ends(m: PlanModel, ok: bool)
    requires
        m.stage <= 2,
        m.failure is None,
        m.at < m.steps.len(),
    ensures
        0 <= plan_measure(after(m, ok)) < plan_measure(m),
        after(m, ok).stage <= 2,
{
}

/// A plan that failed does nothing more.
pub proof fn law_failed_plan_stops(m: PlanModel, ok: bool)
    requires
        m.failure is Some,
    ensures
        after(m, ok) == m,
{
}

// ---------------------------------------------------------------------------
// Waiting for the device
// ---------------------------------------------------------------------------

/// The device is up. A tunnel may say that it does not know.
pub open spec fn is_up(state: Option<Seq<char>>) -> bool {
    match state {
        Some(s) => text::trimmed(s) == "up"@ || text::trimmed(s) == "unknown"@,
        None => false,
    }
}

/// The wait for a device: twenty looks, a tenth of a second apart.
pub struct DeviceWait {
    looks: u32,
}

/// What follows from a look at a device.
#[derive(Debug, Clone, Copy, PartialEq, Eq, Structural)]
pub enum DeviceStep {
    /// The device is ready, or there is no use in waiting.
    Ready,
    /// After a pause the device is looked at again.
    Pause,
    /// There is no device.
    Missing,
}

impl View for DeviceWait {
    type V = nat;

    closed spec fn view(&self) -> nat {
        self.looks as nat
    }
}

impl DeviceWait {
    /// A wait that begins.
    pub fn new() -> (r: Self)
        ensures
            r@ == 0,
    {
        DeviceWait { looks: 0 }
    }

    /// The device was looked at: it is there or not, and says its state. The
    /// last look asks only whether it is there.
    pub fn on_look(&mut self, exists: bool, state: Option<&str>) -> (r: DeviceStep)
        ensures
            looked(old(self)@, exists, text::opt_chars(state), r, final(self)@),
    {
        if self.looks >= 20 {
            return if exists {
                DeviceStep::Ready
            } else {
                DeviceStep::Missing
            };
        }
        let up: bool = match state {
            Some(s) => {
                let chars = text::chars_of(s);
                let word = text::string_of(text::trim(chars.as_slice()));
                text::str_eq(word.as_str(), "up") || text::str_eq(word.as_str(), "unknown")
            },
            None => false,
        };
        if exists && up {
            return DeviceStep::Ready;
        }
        self.looks = self.looks + 1;
        DeviceStep::Pause
    }
}

// ---------------------------------------------------------------------------
// The result of a command
// ---------------------------------------------------------------------------

/// How a command ended.
#[derive(Debug)]
pub enum CommandResult {
    Ended { success: bool, stdout: Vec<u8>, stderr: Vec<u8> },
    NotStarted(String),
    TimedOut { secs: u64 },
}

/// Words with spaces between them.
pub open spec fn spaced(words: Seq<Seq<char>>) -> Seq<char>
    decreases words.len(),
{
    if words.len() == 0 {
        seq![]
    } else if words.len() == 1 {
        words[0]
    } else {
        spaced(words.drop_last()) + " "@ + words.last()
    }
}

/// A command as it is typed.
pub open spec fn typed(c: CommandModel) -> Seq<char> {
    c.program + " "@ + spaced(c.args)
}

/// A command as it is typed.
pub fn command_line(c: &Command) -> (r: Vec<char>)
    ensures
        r@ == typed(c@),
{
    let mut out: Vec<char> = Vec::new();
    text::append_str(&mut out, c.program.as_str());
    text::append_str(&mut out, " ");
    let ghost all = c@.args;
    let ghost start = out@;
    let mut i: usize = 0;
    while i < c.args.len()
        invariant
            i <= c.args@.len(),
            all == config::text_list(c.args@),
            out@ == start + spaced(all.take(i as int)),
        decreases c.args@.len() - i,
    {
        let ghost before = out@;
        assert(all.take(i + 1).drop_last() =~= all.take(i as int));
        assert(all.take(i + 1).last() == c.args@[i as int]@);
        if i > 0 {
            text::append_str(&mut out, " ");
        }
        text::append_str(&mut out, c.args[i].as_str());
        proof {
            if i > 0 {
                assert(out@ =~= before + (" "@ + c.args@[i as int]@));
                assert(out@ =~= start + spaced(all.take(i + 1)));
            } else {
                assert(before =~= start);
                assert(out@ =~= start + c.args@[0]@);
            }
        }
        i = i + 1;
    }
    assert(all.take(i as int) =~= all);
    assert(out@ =~= typed(c@));
    out
}

/// What a command that ended comes to: its output, or why it failed.
pub open spec fn is_judgement(c: CommandModel, result: CommandResult, r: Result<String, String>) -> bool {
    match result {
        CommandResult::Ended { success, stdout, stderr } => if success {
            r matches Ok(t) && t@ == text::lossy_text(stdout@)
        } else {
            r matches Err(e) && e@ == typed(c) + " failed: "@ + text::trimmed(
                text::lossy_text(stderr@),
            )
        },
        CommandResult::NotStarted(error) => r matches Err(e) && e@ == "Failed to run "@ + typed(c)
            + ": "@ + error@,
        CommandResult::TimedOut { secs } => r matches Err(e) && e@ == typed(c)
            + " timed out after "@ + text::decimal(secs as nat) + "s"@,
    }
}

/// What a command that ended comes to.
pub fn judge_command(c: &Command, result: &CommandResult) -> (r: Result<String, String>)
    ensures
        is_judgement(c@, *result, r),
{
    match result {
        CommandResult::Ended { success, stdout, stderr } => {
            if *success {
                return Ok(text::utf8_lossy(stdout.as_slice()));
            }
            let mut out = command_line(c);
            text::append_str(&mut out, " failed: ");
            let words = text::chars_of(text::utf8_lossy(stderr.as_slice()).as_str());
            text::append_chars(&mut out, text::trim(words.as_slice()));
            assert(out@ =~= typed(c@) + " failed: "@ + text::trimmed(text::lossy_text(stderr@)));
            Err(text::string_of(out.as_slice()))
        },
        CommandResult::NotStarted(error) => {
            let mut out: Vec<char> = Vec::new();
            text::append_str(&mut out, "Failed to run ");
            text::append_chars(&mut out, command_line(c).as_slice());
            text::append_str(&mut out, ": ");
            text::append_str(&mut out, error.as_str());
            assert(out@ =~= "Failed to run "@ + typed(c@) + ": "@ + error@);
            Err(text::string_of(out.as_slice()))
        },
        CommandResult::TimedOut { secs } => {
            let mut out = command_line(c);
            text::append_str(&mut out, " timed out after ");
            text::append_chars(&mut out, text::decimal_text(*secs).as_slice());
            text::append_str(&mut out, "s");
            assert(out@ =~= typed(c@) + " timed out after "@ + text::decimal(*secs as nat) + "s"@);
            Err(text::string_of(out.as_slice()))
        },
    }
}

/// A step that must succeed stops the plan where it fails, and every step that is done is
/// followed by the next one, which starts afresh.
pub proof fn law_steps_follow_one_another(m: PlanModel, ok: bool)
    requires
        m.failure is None,
        m.at < m.steps.len(),
        m.stage == 0,
    ensures
        ok ==> after(m, ok) == (PlanModel { at: m.at + 1, stage: 0, ..m }),
        !ok ==> match m.steps[m.at as int] {
            StepModel::Run(_) => after(m, ok).at == m.at + 1 && after(m, ok).failure is None,
            StepModel::Must { command: _, failure } => after(m, ok).failure == Some(failure),
            StepModel::Replace { change: _, delete: _, add: _, failure: _ } => after(m, ok).at
                == m.at && after(m, ok).stage == 1 && after(m, ok).failure is None,
            StepModel::Write { path: _, content: _, failure } => after(m, ok).failure == failure
                && (failure is None ==> after(m, ok).at == m.at + 1),
            StepModel::AwaitDevice(_) => after(m, ok).failure is Some,
        },
{
}

/// A route that cannot be changed is deleted, whether or not that works, and added anew; only
/// where that fails too does the plan stop, if it is to stop at all.
pub proof fn law_route_is_replaced(
    m: PlanModel,
    deleted: bool,
    added: bool,
    a: PlanAction<'_>,
    b: PlanAction<'_>,
    c: PlanAction<'_>,
)
    requires
        m.failure is None,
        m.at < m.steps.len(),
        m.stage == 0,
        m.steps[m.at as int] is Replace,
        is_action(m, a),
        is_action(after(m, false), b),
        is_action(after(after(m, false), deleted), c),
    ensures
        a matches PlanAction::Run(x) && x@ == m.steps[m.at as int]->change,
        b matches PlanAction::Run(x) && x@ == m.steps[m.at as int]->delete,
        c matches PlanAction::Run(x) && x@ == m.steps[m.at as int]->add,
        ({
            let end = after(after(after(m, false), deleted), added);
            let must = m.steps[m.at as int]->Replace_failure;
            if added || must is None {
                end == (PlanModel { at: m.at + 1, ..m })
            } else {
                end.failure == must
            }
        }),
{
}

/// What a look at the device comes to.
pub open spec fn looked(
    looks: nat,
    exists: bool,
    state: Option<Seq<char>>,
    r: DeviceStep,
    after: nat,
) -> bool {
    &&& looks < 20 ==> {
        if exists && is_up(state) {
            r == DeviceStep::Ready && after == looks
        } else {
            r == DeviceStep::Pause && after == looks + 1
        }
    }
    &&& looks >= 20 ==> {
        &&& after == looks
        &&& r == (if exists {
            DeviceStep::Ready
        } else {
            DeviceStep::Missing
        })
    }
}

/// A device is waited for until it is there and up, twenty looks long; after that it is enough
/// that it is there, and a device that is not there is missing.
pub proof fn law_device_is_waited_for(
    looks: nat,
    exists: bool,
    state: Option<Seq<char>>,
    r: DeviceStep,
    after: nat,
)
    requires
        looked(looks, exists, state, r, after),
    ensures
        r is Missing <==> looks >= 20 && !exists,
        r is Pause ==> looks < 20 && after == looks + 1,
        looks < 20 && exists && state is Some && text::trimmed(state->0) == "up"@ ==> r is Ready,
        looks < 20 && exists && state is Some && text::trimmed(state->0) == "unknown"@ ==> r
            is Ready,
        looks < 20 && !(exists && state is Some) ==> r is Pause,
{
}

/// A command that worked gives what it wrote, and one that did not gives an error that names it.
pub proof fn law_command_is_judged_by_its_success(
    c: CommandModel,
    result: CommandResult,
    r: Result<String, String>,
)
    requires
        is_judgement(c, result, r),
    ensures
        r is Ok <==> (result matches CommandResult::Ended { success, stdout, stderr } && success),
        result matches CommandResult::Ended { success, stdout, stderr } ==> (success ==> r->Ok_0@
            == text::lossy_text(stdout@)),
        r matches Err(e) ==> text::contains_text(e@, c.program + " "@ + spaced(c.args)),
{
    if let Err(e) = r {
        let t = typed(c);
        match result {
            CommandResult::Ended { success, stdout, stderr } => {
                assert(e@.subrange(0, t.len() as int) =~= t);
                assert(text::occurs_at(e@, t, 0));
            },
            CommandResult::NotStarted(error) => {
                let n = "Failed to run "@.len() as int;
                assert(e@.subrange(n, n + t.len()) =~= t);
                assert(text::occurs_at(e@, t, n));
            },
            CommandResult::TimedOut { secs } => {
                assert(e@.subrange(0, t.len() as int) =~= t);
                assert(text::occurs_at(e@, t, 0));
            },
        }
    }
}

} // verus!
