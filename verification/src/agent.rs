//! The agent loop's decisions: which step to run next and when to stop.
//!
//! A run follows a fixed plan (call the `echo` tool, generate, finish when
//! more than one step is allowed; otherwise generate and finish). Before
//! every step the loop stops when the client cancelled or the wall clock ran
//! out; reaching `Finish` ends the run as converged; before a tool call or a
//! generation it also stops when the step cap is reached or the token budget
//! is spent.
//! The caller performs each step (a tool call, a generation) and reports
//! back; [`LoopState`] decides.
use vstd::prelude::*;

verus! {

/// `max_steps` when a request gives none: a single turn.
pub fn default_max_steps() -> (r: u32)
    ensures
        r == 1,
{
    1
}

/// The wall-clock limit in seconds when a request gives none.
pub fn default_wall_clock_secs() -> (r: u64)
    ensures
        r == 300,
{
    300
}

/// Why a run ended.
#[derive(Debug, Clone, Copy, PartialEq, Eq)]
pub enum StopReason {
    /// The plan reached its end.
    Converged,
    /// The step cap was reached.
    StepCap,
    /// The token budget was spent.
    TokenBudget,
    /// The wall clock ran out.
    WallClock,
    /// The client cancelled.
    Cancelled,
    /// The upstream model failed.
    UpstreamError,
}

/// One step of the plan.
#[derive(Debug, Clone, PartialEq, Eq)]
pub enum PlanStep {
    /// Call a tool by name.
    CallTool { tool: String },
    /// Run one generation with a fresh pipeline.
    Generate,
    /// End the run.
    Finish,
}

/// What the loop does next.
#[derive(Debug, Clone, PartialEq, Eq)]
pub enum LoopDecision {
    /// Run this step; it is the step with this number (from 1).
    Run { step: u32, action: PlanStep },
    /// The run is over; report why, with the steps taken and tokens counted.
    Stop { reason: StopReason, steps_taken: u32, tokens_estimated: u64 },
}

/// How tool side effects are classified.
#[derive(Debug, Clone, Copy, PartialEq, Eq)]
pub enum ToolSideEffect {
    /// Reads only.
    Readonly,
    /// Writes, idempotent or safe to retry.
    Mutate,
    /// Deletes or overwrites; dry-run unless confirmed.
    Destructive,
    /// Appends only.
    Append,
}

/// What a tool says of itself.
#[derive(Debug, Clone, Copy, PartialEq, Eq)]
pub struct ToolMeta {
    pub name: &'static str,
    pub description: &'static str,
    pub side_effect: ToolSideEffect,
}

/// The mock tool that hands its input back.
#[derive(Debug, Clone, Copy, PartialEq, Eq)]
pub struct EchoTool;

impl EchoTool {
    /// `echo`, read-only.
    pub fn meta(&self) -> (r: ToolMeta)
        ensures
            r.name@ == "echo"@,
            r.side_effect == ToolSideEffect::Readonly,
    {
        ToolMeta {
            name: "echo",
            description: "M_AGENT-1 mock: returns its input verbatim. Verifies loop→tool→subagent wiring.",
            side_effect: ToolSideEffect::Readonly,
        }
    }
}

pub enum StepModel {
    CallTool(Seq<char>),
    Generate,
    Finish,
}

pub open spec fn step_model(s: PlanStep) -> StepModel {
    match s {
        PlanStep::CallTool { tool } => StepModel::CallTool(tool@),
        PlanStep::Generate => StepModel::Generate,
        PlanStep::Finish => StepModel::Finish,
    }
}

/// The loop's state between steps.
pub struct LoopState {
    plan: Vec<PlanStep>,
    plan_idx: usize,
    steps_taken: u32,
    tokens_estimated: u64,
    max_steps: u32,
    token_budget: u64,
    stopped: bool,
}

/// The plan for a step cap: `echo`, generate, finish when at least two
/// steps are allowed; generate and finish otherwise.
pub open spec fn plan_for(max_steps: u32) -> Seq<StepModel> {
    if max_steps >= 2 {
        seq![StepModel::CallTool("echo"@), StepModel::Generate, StepModel::Finish]
    } else {
        seq![StepModel::Generate, StepModel::Finish]
    }
}

impl LoopState {
    pub closed spec fn plan(&self) -> Seq<StepModel> {
        self.plan@.map_values(|s: PlanStep| step_model(s))
    }

    pub closed spec fn plan_idx(&self) -> nat {
        self.plan_idx as nat
    }

    pub closed spec fn steps_taken(&self) -> u32 {
        self.steps_taken
    }

    pub closed spec fn tokens_estimated(&self) -> u64 {
        self.tokens_estimated
    }

    /// The step cap in force (at least one).
    pub closed spec fn max_steps(&self) -> u32 {
        self.max_steps
    }

    pub closed spec fn token_budget(&self) -> u64 {
        self.token_budget
    }

    /// A stop has been decided; nothing runs any more.
    pub closed spec fn stopped(&self) -> bool {
        self.stopped
    }

    /// The state is consistent: the cap is at least one and never passed,
    /// and the plan position is within the plan.
    pub closed spec fn wf(&self) -> bool {
        &&& self.max_steps >= 1
        &&& self.steps_taken <= self.max_steps
        &&& self.plan_idx <= self.plan@.len()
        &&& self.plan@.len() <= 3
    }

    /// A fresh run with the request's step cap (raised to one) and token
    /// budget (none means unlimited).
    pub fn new(max_steps: u32, token_budget: Option<u64>) -> (r: LoopState)
        ensures
            r.wf(),
            r.max_steps() == if max_steps >= 1 {
                max_steps
            } else {
                1
            },
            r.plan() == plan_for(r.max_steps()),
            r.plan_idx() == 0,
            r.steps_taken() == 0,
            r.tokens_estimated() == 0,
            r.token_budget() == match token_budget {
                Some(b) => b,
                None => u64::MAX,
            },
            !r.stopped(),
    {
        let cap = if max_steps >= 1 {
            max_steps
        } else {
            1
        };
        let mut plan: Vec<PlanStep> = Vec::new();
        if cap >= 2 {
            let mut echo = String::new();
            crate::text::push_str(&mut echo, "echo");
            plan.push(PlanStep::CallTool { tool: echo });
        }
        plan.push(PlanStep::Generate);
        plan.push(PlanStep::Finish);
        let r = LoopState {
            plan: plan,
            plan_idx: 0,
            steps_taken: 0,
            tokens_estimated: 0,
            max_steps: cap,
            token_budget: match token_budget {
                Some(b) => b,
                None => u64::MAX,
            },
            stopped: false,
        };
        assert(r.plan() =~= plan_for(cap));
        r
    }

    fn stop(&mut self, reason: StopReason) -> (d: LoopDecision)
        ensures
            final(self).stopped(),
            final(self).plan() == old(self).plan(),
            final(self).plan_idx() == old(self).plan_idx(),
            final(self).steps_taken() == old(self).steps_taken(),
            final(self).tokens_estimated() == old(self).tokens_estimated(),
            final(self).max_steps() == old(self).max_steps(),
            final(self).token_budget() == old(self).token_budget(),
            old(self).wf() ==> final(self).wf(),
            d == (LoopDecision::Stop {
                reason: reason,
                steps_taken: old(self).steps_taken(),
                tokens_estimated: old(self).tokens_estimated(),
            }),
    {
        self.stopped = true;
        LoopDecision::Stop {
            reason: reason,
            steps_taken: self.steps_taken,
            tokens_estimated: self.tokens_estimated,
        }
    }

    /// Decides the next step. A run that has stopped stays stopped. At the
    /// end of the plan the run has converged. Otherwise the run stops when
    /// the client cancelled or the wall clock ran out; a `Finish` step then
    /// ends the run as converged, taking no step of its own (a run whose one
    /// step generated the reply has converged, whatever its cap); before any
    /// other step the step cap and the token budget are checked, and if
    /// neither closes, the step runs as the next numbered one.
    pub fn next(&mut self, cancelled: bool, deadline_passed: bool) -> (d: LoopDecision)
        requires
            old(self).wf(),
        ensures
            final(self).wf(),
            final(self).plan() == old(self).plan(),
            final(self).max_steps() == old(self).max_steps(),
            final(self).token_budget() == old(self).token_budget(),
            final(self).tokens_estimated() == old(self).tokens_estimated(),
            final(self).plan_idx() == old(self).plan_idx(),
            ({
                let s = *old(self);
                let stop = |reason: StopReason|
                    d == (LoopDecision::Stop {
                        reason: reason,
                        steps_taken: s.steps_taken(),
                        tokens_estimated: s.tokens_estimated(),
                    }) && final(self).stopped() && final(self).steps_taken() == s.steps_taken();
                if s.stopped() {
                    stop(StopReason::Converged)
                } else if s.plan_idx() >= s.plan().len() {
                    stop(StopReason::Converged)
                } else if cancelled {
                    stop(StopReason::Cancelled)
                } else if deadline_passed {
                    stop(StopReason::WallClock)
                } else if s.plan()[s.plan_idx() as int] is Finish {
                    stop(StopReason::Converged)
                } else if s.steps_taken() >= s.max_steps() {
                    stop(StopReason::StepCap)
                } else if s.tokens_estimated() >= s.token_budget() {
                    stop(StopReason::TokenBudget)
                } else {
                    &&& final(self).steps_taken() == s.steps_taken() + 1
                    &&& !final(self).stopped()
                    &&& d matches LoopDecision::Run { step, action } && step == s.steps_taken() + 1
                        && step_model(action) == s.plan()[s.plan_idx() as int]
                }
            }),
    {
        if self.stopped || self.plan_idx >= self.plan.len() {
            return self.stop(StopReason::Converged);
        }
        if cancelled {
            return self.stop(StopReason::Cancelled);
        }
        if deadline_passed {
            return self.stop(StopReason::WallClock);
        }
        let ghost m = self.plan();
        assert(m[self.plan_idx as int] == step_model(self.plan@[self.plan_idx as int]));
        if let PlanStep::Finish = &self.plan[self.plan_idx] {
            return self.stop(StopReason::Converged);
        }
        if self.steps_taken >= self.max_steps {
            return self.stop(StopReason::StepCap);
        }
        if self.tokens_estimated >= self.token_budget {
            return self.stop(StopReason::TokenBudget);
        }
        self.steps_taken = self.steps_taken + 1;
        let step = self.steps_taken;
        match &self.plan[self.plan_idx] {
            PlanStep::Finish => self.stop(StopReason::Converged),
            PlanStep::Generate => LoopDecision::Run { step: step, action: PlanStep::Generate },
            PlanStep::CallTool { tool } => {
                let t = crate::text::string_of(&crate::text::chars_of(tool.as_str()));
                LoopDecision::Run { step: step, action: PlanStep::CallTool { tool: t } }
            },
        }
    }

    /// The tool step is done (its result, or its failure, was reported); the
    /// plan moves on.
    pub fn tool_done(&mut self)
        requires
            old(self).wf(),
        ensures
            final(self).wf(),
            final(self).plan_idx() == if old(self).plan_idx() < old(self).plan().len() {
                old(self).plan_idx() + 1
            } else {
                old(self).plan_idx()
            },
            final(self).plan() == old(self).plan(),
            final(self).steps_taken() == old(self).steps_taken(),
            final(self).tokens_estimated() == old(self).tokens_estimated(),
            final(self).max_steps() == old(self).max_steps(),
            final(self).token_budget() == old(self).token_budget(),
            final(self).stopped() == old(self).stopped(),
    {
        if self.plan_idx < self.plan.len() {
            self.plan_idx = self.plan_idx + 1;
        }
    }

    /// The generation step produced an estimated `tokens` tokens (the count
    /// saturates at `u64::MAX`); the plan moves on.
    pub fn generation_done(&mut self, tokens: u64)
        requires
            old(self).wf(),
        ensures
            final(self).wf(),
            final(self).plan_idx() == if old(self).plan_idx() < old(self).plan().len() {
                old(self).plan_idx() + 1
            } else {
                old(self).plan_idx()
            },
            final(self).tokens_estimated() == if old(self).tokens_estimated() + tokens <= u64::MAX {
                (old(self).tokens_estimated() + tokens) as u64
            } else {
                u64::MAX
            },
            final(self).plan() == old(self).plan(),
            final(self).steps_taken() == old(self).steps_taken(),
            final(self).max_steps() == old(self).max_steps(),
            final(self).token_budget() == old(self).token_budget(),
            final(self).stopped() == old(self).stopped(),
    {
        self.tokens_estimated = self.tokens_estimated.saturating_add(tokens);
        if self.plan_idx < self.plan.len() {
            self.plan_idx = self.plan_idx + 1;
        }
    }

    /// The generation (or its pipeline) failed: the run stops.
    pub fn generation_failed(&mut self) -> (d: LoopDecision)
        requires
            old(self).wf(),
        ensures
            final(self).wf(),
            final(self).stopped(),
            d == (LoopDecision::Stop {
                reason: StopReason::UpstreamError,
                steps_taken: old(self).steps_taken(),
                tokens_estimated: old(self).tokens_estimated(),
            }),
    {
        self.stop(StopReason::UpstreamError)
    }
}

/// The step cap is never passed: whatever the gates and reports, a run
/// takes at most `max(max_steps, 1)` steps. (Every operation keeps the
/// state well formed, and a well-formed state has taken no more steps than
/// its cap.)
pub proof fn lemma_steps_within_cap(s: LoopState)
    requires
        s.wf(),
    ensures
        s.steps_taken() <= s.max_steps(),
        s.max_steps() >= 1,
{
}

} // verus!
