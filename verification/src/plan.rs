//! Execution plans: phases of steps run in order, with dependency gating and
//! a progressive recovery pipeline for failed steps (framework retry with
//! backoff, alternative step, replan, fallback policy).
//!
//! The runner that executes steps, emits events, sleeps and asks the recovery
//! strategies lives outside the library; it drives the plan through the
//! functions here, which make every decision and every change to the plan.
use vstd::prelude::*;

use crate::types::string_of;

verus! {

/// Status of one plan step.
#[derive(Clone, Copy, Debug, PartialEq, Eq, Structural)]
pub enum StepStatus {
    Pending,
    Running,
    Completed,
    Failed,
    Skipped,
}

/// Status of one plan phase.
#[derive(Clone, Copy, Debug, PartialEq, Eq, Structural)]
pub enum PhaseStatus {
    Pending,
    Running,
    Completed,
    Failed,
    Skipped,
}

/// Status of the whole plan.
#[derive(Clone, Copy, Debug, PartialEq, Eq, Structural)]
pub enum PlanStatus {
    Draft,
    Executing,
    Completed,
    Failed,
}

/// What running a step produced.
#[derive(Clone, Debug)]
pub struct StepResult {
    pub success: bool,
    pub output: Option<String>,
    pub error: Option<String>,
    pub duration_ms: u64,
}

/// One step of a plan. `payload` is the step's JSON payload, as text.
#[derive(Clone, Debug)]
pub struct PlanStep {
    pub id: String,
    pub description: String,
    pub dependencies: Vec<String>,
    pub payload: String,
    pub status: StepStatus,
    pub result: Option<StepResult>,
}

/// A phase: steps that run in order.
#[derive(Clone, Debug)]
pub struct PlanPhase {
    pub name: String,
    pub steps: Vec<PlanStep>,
    pub status: PhaseStatus,
}

/// A plan: phases that run in order.
#[derive(Clone, Debug)]
pub struct ExecutionPlan {
    pub id: String,
    pub phases: Vec<PlanPhase>,
    pub status: PlanStatus,
}

// ── Looking steps up ────────────────────────────────────────────────────────

/// `(p, k)` names a step of `plan`.
pub open spec fn valid_pos(plan: ExecutionPlan, p: int, k: int) -> bool {
    0 <= p < plan.phases@.len() && 0 <= k < plan.phases@[p].steps@.len()
}

/// The step at `(p, k)`.
pub open spec fn step_at(plan: ExecutionPlan, p: int, k: int) -> PlanStep {
    plan.phases@[p].steps@[k]
}

/// The id of the step at `(p, k)`.
pub open spec fn id_at(plan: ExecutionPlan, p: int, k: int) -> Seq<char> {
    plan.phases@[p].steps@[k].id@
}

/// `(p1, k1)` comes before `(p2, k2)` in plan order.
pub open spec fn before(p1: int, k1: int, p2: int, k2: int) -> bool {
    p1 < p2 || (p1 == p2 && k1 < k2)
}

/// `(p, k)` is the first step of the plan, in plan order, whose id is `id`:
/// the step that a lookup by id finds.
pub open spec fn first_match(plan: ExecutionPlan, id: Seq<char>, p: int, k: int) -> bool {
    &&& valid_pos(plan, p, k)
    &&& id_at(plan, p, k) == id
    &&& forall|p2: int, k2: int|
        valid_pos(plan, p2, k2) && before(p2, k2, p, k) ==> #[trigger] id_at(plan, p2, k2) != id
}

/// Some step of the plan has id `id`.
pub open spec fn has_step(plan: ExecutionPlan, id: Seq<char>) -> bool {
    exists|p: int, k: int| valid_pos(plan, p, k) && #[trigger] id_at(plan, p, k) == id
}

/// A step in this status no longer holds back the steps that depend on it.
pub open spec fn settled(s: StepStatus) -> bool {
    s == StepStatus::Completed || s == StepStatus::Skipped
}

/// The step that a lookup of `id` finds exists and is settled.
pub open spec fn dependency_done(plan: ExecutionPlan, id: Seq<char>) -> bool {
    exists|p: int, k: int| first_match(plan, id, p, k) && settled(#[trigger] step_at(plan, p, k).status)
}

/// The dependencies of the step that a lookup of `id` finds are all done;
/// a step that cannot be found has nothing to wait for.
pub open spec fn dependencies_met(plan: ExecutionPlan, id: Seq<char>) -> bool {
    forall|p: int, k: int| #[trigger] first_match(plan, id, p, k) ==>
        forall|i: int| 0 <= i < step_at(plan, p, k).dependencies@.len()
            ==> dependency_done(plan, #[trigger] step_at(plan, p, k).dependencies@[i]@)
}

/// Two first matches of the same id are the same position.
pub proof fn lemma_first_match_unique(plan: ExecutionPlan, id: Seq<char>, p1: int, k1: int, p2: int, k2: int)
    requires
        first_match(plan, id, p1, k1),
        first_match(plan, id, p2, k2),
    ensures
        p1 == p2 && k1 == k2,
{
    if before(p1, k1, p2, k2) {
        assert(id_at(plan, p1, k1) != id);
    } else if before(p2, k2, p1, k1) {
        assert(id_at(plan, p2, k2) != id);
    }
}

impl ExecutionPlan {
    /// The position of the first step, in plan order, whose id is `id`.
    pub fn find_step_position(&self, id: &str) -> (r: Option<(usize, usize)>)
        ensures
            match r {
                Some((p, k)) => first_match(*self, id@, p as int, k as int),
                None => !has_step(*self, id@),
            },
    {
        let key = string_of(id);
        let mut p: usize = 0;
        while p < self.phases.len()
            invariant
                key@ == id@,
                p <= self.phases@.len(),
                forall|p2: int, k2: int| valid_pos(*self, p2, k2) && p2 < p ==> #[trigger] id_at(*self, p2, k2) != id@,
            decreases self.phases@.len() - p,
        {
            let steps = &self.phases[p].steps;
            let mut k: usize = 0;
            while k < steps.len()
                invariant
                    key@ == id@,
                    p < self.phases@.len(),
                    steps@ == self.phases@[p as int].steps@,
                    k <= steps@.len(),
                    forall|p2: int, k2: int| valid_pos(*self, p2, k2) && before(p2, k2, p as int, k as int)
                        ==> #[trigger] id_at(*self, p2, k2) != id@,
                decreases steps@.len() - k,
            {
                if steps[k].id == key {
                    return Some((p, k));
                }
                k = k + 1;
            }
            p = p + 1;
        }
        None
    }

    /// True when no phase of the plan has a step.
    pub fn has_no_steps(&self) -> (r: bool)
        ensures
            r == (forall|p: int| 0 <= p < self.phases@.len() ==> #[trigger] self.phases@[p].steps@.len() == 0),
    {
        let mut p: usize = 0;
        while p < self.phases.len()
            invariant
                p <= self.phases@.len(),
                forall|q: int| 0 <= q < p ==> #[trigger] self.phases@[q].steps@.len() == 0,
            decreases self.phases@.len() - p,
        {
            if self.phases[p].steps.len() > 0 {
                return false;
            }
            p = p + 1;
        }
        true
    }
}

/// Whether every dependency of the step `step_id` is completed or skipped. A
/// step that cannot be found, or that has no dependencies, is ready; a
/// dependency that cannot be found is not done.
pub fn check_dependencies_met(plan: &ExecutionPlan, step_id: &str) -> (r: bool)
    ensures
        r == dependencies_met(*plan, step_id@),
{
    match plan.find_step_position(step_id) {
        None => true,
        Some((p, k)) => {
            let deps = &plan.phases[p].steps[k].dependencies;
            proof {
                assert forall|p2: int, k2: int| #[trigger] first_match(*plan, step_id@, p2, k2) implies p2 == p && k2 == k by {
                    lemma_first_match_unique(*plan, step_id@, p as int, k as int, p2, k2);
                }
            }
            let mut i: usize = 0;
            while i < deps.len()
                invariant
                    valid_pos(*plan, p as int, k as int),
                    first_match(*plan, step_id@, p as int, k as int),
                    deps@ == step_at(*plan, p as int, k as int).dependencies@,
                    i <= deps@.len(),
                    forall|j: int| 0 <= j < i ==> dependency_done(*plan, #[trigger] deps@[j]@),
                decreases deps@.len() - i,
            {
                let dep: &str = deps[i].as_str();
                match plan.find_step_position(dep) {
                    None => {
                        proof {
                            if dependency_done(*plan, deps@[i as int]@) {
                                let (p3, k3) = choose|p3: int, k3: int| first_match(*plan, deps@[i as int]@, p3, k3)
                                    && settled(#[trigger] step_at(*plan, p3, k3).status);
                                assert(id_at(*plan, p3, k3) == dep@);
                            }
                        }
                        return false;
                    },
                    Some((p2, k2)) => {
                        let st = plan.phases[p2].steps[k2].status;
                        if !(st == StepStatus::Completed || st == StepStatus::Skipped) {
                            proof {
                                if dependency_done(*plan, deps@[i as int]@) {
                                    let (p3, k3) = choose|p3: int, k3: int| first_match(*plan, deps@[i as int]@, p3, k3)
                                        && settled(#[trigger] step_at(*plan, p3, k3).status);
                                    lemma_first_match_unique(*plan, dep@, p2 as int, k2 as int, p3, k3);
                                }
                            }
                            return false;
                        }
                        assert(settled(step_at(*plan, p2 as int, k2 as int).status));
                    },
                }
                i = i + 1;
            }
            true
        },
    }
}


/// `b` is `a` but for the step at `(p, k)`: the plan's identity and status,
/// every other phase, the name, status and step count of phase `p`, and its
/// other steps are the same.
pub open spec fn others_unchanged(a: ExecutionPlan, b: ExecutionPlan, p: int, k: int) -> bool {
    &&& b.id == a.id
    &&& b.status == a.status
    &&& b.phases@.len() == a.phases@.len()
    &&& forall|q: int| 0 <= q < a.phases@.len() && q != p ==> #[trigger] b.phases@[q] == a.phases@[q]
    &&& b.phases@[p].name == a.phases@[p].name
    &&& b.phases@[p].status == a.phases@[p].status
    &&& b.phases@[p].steps@.len() == a.phases@[p].steps@.len()
    &&& forall|j: int| 0 <= j < a.phases@[p].steps@.len() && j != k
        ==> #[trigger] b.phases@[p].steps@[j] == a.phases@[p].steps@[j]
}

/// Set the status of the step at `(p, k)`.
fn set_step_status(plan: &mut ExecutionPlan, p: usize, k: usize, s: StepStatus)
    requires
        valid_pos(*old(plan), p as int, k as int),
    ensures
        others_unchanged(*old(plan), *final(plan), p as int, k as int),
        step_at(*final(plan), p as int, k as int) == (PlanStep { status: s, ..step_at(*old(plan), p as int, k as int) }),
{
    plan.phases[p].steps[k].status = s;
}


// ── Walking the plan ────────────────────────────────────────────────────────

/// Where the runner stands: the current phase and, in it, the current step.
#[derive(Clone, Copy, Debug, PartialEq, Eq, Structural)]
pub struct PlanCursor {
    pub phase_idx: usize,
    pub step_idx: usize,
}

/// What the runner does next.
#[derive(Clone, Copy, Debug, PartialEq, Eq, Structural)]
pub enum PlanMove {
    /// Run the step at the cursor.
    RunStep,
    /// Every phase is done; the plan is completed.
    Finished,
}

/// `y` is `x` with perhaps another status.
pub open spec fn step_same_but_status(x: PlanStep, y: PlanStep) -> bool {
    y == (PlanStep { status: y.status, ..x })
}

/// `b` is `a` with perhaps other statuses (of the plan, its phases and its
/// steps); nothing else differs.
pub open spec fn same_but_statuses(a: ExecutionPlan, b: ExecutionPlan) -> bool {
    &&& b.id == a.id
    &&& b.phases@.len() == a.phases@.len()
    &&& forall|q: int| 0 <= q < a.phases@.len() ==> {
        &&& (#[trigger] b.phases@[q]).steps@.len() == a.phases@[q].steps@.len()
        &&& b.phases@[q].name == a.phases@[q].name
    }
    &&& forall|q: int, j: int| valid_pos(a, q, j) ==> step_same_but_status(step_at(a, q, j), #[trigger] step_at(b, q, j))
}

/// The cursor stands inside the plan, and every phase before it is completed.
pub open spec fn cursor_ok(plan: ExecutionPlan, c: PlanCursor) -> bool {
    &&& c.phase_idx <= plan.phases@.len()
    &&& c.phase_idx < plan.phases@.len() ==> c.step_idx <= plan.phases@[c.phase_idx as int].steps@.len()
    &&& forall|q: int| 0 <= q < c.phase_idx ==> (#[trigger] plan.phases@[q]).status == PhaseStatus::Completed
}

/// The steps that the walk from `c` may pass over without running them.
pub open spec fn walk_measure(plan: ExecutionPlan, c: PlanCursor) -> int {
    if c.phase_idx < plan.phases@.len() {
        plan.phases@[c.phase_idx as int].steps@.len() - c.step_idx
    } else {
        0
    }
}

/// Position `(q, j)` appears in `s`.
pub open spec fn listed(s: Seq<(usize, usize)>, q: int, j: int) -> bool {
    exists|i: int| 0 <= i < s.len() && (#[trigger] s[i]).0 == q && s[i].1 == j
}

/// `(q, j)` lies in plan order at or after `s` and before `e`: the walk
/// from `s` to `e` passed it.
pub open spec fn passed(s: PlanCursor, e: PlanCursor, q: int, j: int) -> bool {
    !before(q, j, s.phase_idx as int, s.step_idx as int) && before(q, j, e.phase_idx as int, e.step_idx as int)
}

/// No step that was settled in `a` is unsettled in `b`.
pub open spec fn settled_kept(a: ExecutionPlan, b: ExecutionPlan) -> bool {
    forall|q: int, j: int| valid_pos(a, q, j) && settled(step_at(a, q, j).status) ==> settled(#[trigger] step_at(b, q, j).status)
}

/// A lookup by id finds the same position in two plans that differ only in
/// statuses.
proof fn lemma_first_match_same(a: ExecutionPlan, b: ExecutionPlan, id: Seq<char>, p: int, k: int)
    requires
        same_but_statuses(a, b),
    ensures
        first_match(a, id, p, k) == first_match(b, id, p, k),
{
    assert forall|q: int, j: int| #![auto] valid_pos(a, q, j) <==> valid_pos(b, q, j) by {
        if 0 <= q < a.phases@.len() {
            assert(b.phases@[q].steps@.len() == a.phases@[q].steps@.len());
        }
    }
    assert forall|q: int, j: int| valid_pos(a, q, j) implies #[trigger] id_at(a, q, j) == id_at(b, q, j) by {
        assert(step_same_but_status(step_at(a, q, j), step_at(b, q, j)));
    }
    if first_match(a, id, p, k) {
        assert forall|p2: int, k2: int| valid_pos(b, p2, k2) && before(p2, k2, p, k) implies #[trigger] id_at(b, p2, k2) != id by {
            assert(valid_pos(a, p2, k2));
            assert(id_at(a, p2, k2) != id);
        }
    }
    if first_match(b, id, p, k) {
        assert forall|p2: int, k2: int| valid_pos(a, p2, k2) && before(p2, k2, p, k) implies #[trigger] id_at(a, p2, k2) != id by {
            assert(valid_pos(b, p2, k2));
            assert(id_at(b, p2, k2) != id);
        }
    }
}

/// Settling steps never takes back a met dependency: what is met in `a` is
/// met in `b` when `b` differs only in statuses and keeps every settled step
/// settled.
pub proof fn lemma_met_monotone(a: ExecutionPlan, b: ExecutionPlan, id: Seq<char>)
    requires
        same_but_statuses(a, b),
        settled_kept(a, b),
        dependencies_met(a, id),
    ensures
        dependencies_met(b, id),
{
    assert forall|p: int, k: int| #[trigger] first_match(b, id, p, k) implies
        forall|i: int| 0 <= i < step_at(b, p, k).dependencies@.len()
            ==> dependency_done(b, #[trigger] step_at(b, p, k).dependencies@[i]@) by {
        lemma_first_match_same(a, b, id, p, k);
        assert(step_same_but_status(step_at(a, p, k), step_at(b, p, k)));
        assert forall|i: int| 0 <= i < step_at(b, p, k).dependencies@.len()
            implies dependency_done(b, #[trigger] step_at(b, p, k).dependencies@[i]@) by {
            let dep = step_at(a, p, k).dependencies@[i]@;
            assert(dependency_done(a, dep));
            let (p2, k2) = choose|p2: int, k2: int| first_match(a, dep, p2, k2) && settled(#[trigger] step_at(a, p2, k2).status);
            lemma_first_match_same(a, b, dep, p2, k2);
            assert(settled(step_at(b, p2, k2).status));
        }
    }
}

/// Set the status of phase `p`.
fn set_phase_status(plan: &mut ExecutionPlan, p: usize, s: PhaseStatus)
    requires
        p < old(plan).phases@.len(),
    ensures
        same_but_statuses(*old(plan), *final(plan)),
        final(plan).status == old(plan).status,
        final(plan).phases@[p as int].status == s,
        forall|q: int| 0 <= q < old(plan).phases@.len() && q != p ==> #[trigger] final(plan).phases@[q] == old(plan).phases@[q],
        final(plan).phases@[p as int].steps == old(plan).phases@[p as int].steps,
        final(plan).phases@[p as int].name == old(plan).phases@[p as int].name,
        forall|q: int, j: int| valid_pos(*old(plan), q, j) ==> #[trigger] step_at(*final(plan), q, j) == step_at(*old(plan), q, j),
{
    plan.phases[p].status = s;
}

/// Move the cursor to the next step to run. A pending step whose
/// dependencies are not met is marked skipped (its position is appended to
/// `skipped`) and passed over; a phase whose steps are exhausted is marked
/// completed; when the last phase is done the plan is completed.
pub fn advance(plan: &mut ExecutionPlan, cursor: &mut PlanCursor, skipped: &mut Vec<(usize, usize)>) -> (m: PlanMove)
    requires
        cursor_ok(*old(plan), *old(cursor)),
    ensures
        cursor_ok(*final(plan), *final(cursor)),
        same_but_statuses(*old(plan), *final(plan)),
        // Only pending steps change, and they become skipped; those are listed.
        final(skipped)@.take(old(skipped)@.len() as int) == old(skipped)@,
        forall|q: int, j: int| valid_pos(*old(plan), q, j) ==> {
            ||| (#[trigger] step_at(*final(plan), q, j)).status == step_at(*old(plan), q, j).status
            ||| step_at(*old(plan), q, j).status == StepStatus::Pending
                && step_at(*final(plan), q, j).status == StepStatus::Skipped
                && listed(final(skipped)@, q, j)
        },
        forall|i: int| old(skipped)@.len() <= i < final(skipped)@.len() ==> {
            let (q, j) = #[trigger] final(skipped)@[i];
            &&& valid_pos(*old(plan), q as int, j as int)
            &&& step_at(*old(plan), q as int, j as int).status == StepStatus::Pending
            &&& step_at(*final(plan), q as int, j as int).status == StepStatus::Skipped
            // A step is skipped only when its dependencies are not met.
            &&& !dependencies_met(*old(plan), id_at(*old(plan), q as int, j as int))
        },
        // No pending step is left behind: every step the walk passed is
        // settled one way or another.
        forall|q: int, j: int| valid_pos(*final(plan), q, j) && passed(*old(cursor), *final(cursor), q, j)
            ==> #[trigger] step_at(*final(plan), q, j).status != StepStatus::Pending,
        // The cursor only moves forward.
        final(cursor).phase_idx > old(cursor).phase_idx
            || (final(cursor).phase_idx == old(cursor).phase_idx && final(cursor).step_idx >= old(cursor).step_idx),
        match m {
            PlanMove::RunStep => {
                let (p, k) = (final(cursor).phase_idx as int, final(cursor).step_idx as int);
                &&& valid_pos(*final(plan), p, k)
                &&& final(plan).phases@[p].status == PhaseStatus::Running
                &&& final(plan).status == old(plan).status
                // A pending step runs only once its dependencies are met.
                &&& step_at(*final(plan), p, k).status != StepStatus::Pending
                    || dependencies_met(*final(plan), id_at(*final(plan), p, k))
            },
            PlanMove::Finished => {
                &&& final(cursor).phase_idx == final(plan).phases@.len()
                &&& final(plan).status == PlanStatus::Completed
            },
        },
{
    let ghost old_plan = *plan;
    let ghost old_skipped = skipped@;
    let ghost start = *cursor;
    loop
        invariant
            old_plan == *old(plan),
            old_skipped == old(skipped)@,
            start == *old(cursor),
            cursor_ok(*plan, *cursor),
            same_but_statuses(old_plan, *plan),
            plan.status == old_plan.status,
            old_skipped.len() <= skipped@.len(),
            skipped@.take(old_skipped.len() as int) == old_skipped,
            forall|q: int, j: int| valid_pos(old_plan, q, j) ==> {
                ||| (#[trigger] step_at(*plan, q, j)).status == step_at(old_plan, q, j).status
                ||| step_at(old_plan, q, j).status == StepStatus::Pending
                    && step_at(*plan, q, j).status == StepStatus::Skipped
                    && listed(skipped@, q, j)
            },
            forall|i: int| old_skipped.len() <= i < skipped@.len() ==> {
                let (q, j) = #[trigger] skipped@[i];
                &&& valid_pos(old_plan, q as int, j as int)
                &&& step_at(old_plan, q as int, j as int).status == StepStatus::Pending
                &&& step_at(*plan, q as int, j as int).status == StepStatus::Skipped
                &&& !dependencies_met(old_plan, id_at(old_plan, q as int, j as int))
            },
            forall|q: int, j: int| valid_pos(*plan, q, j) && passed(start, *cursor, q, j)
                ==> #[trigger] step_at(*plan, q, j).status != StepStatus::Pending,
            cursor.phase_idx > start.phase_idx
                || (cursor.phase_idx == start.phase_idx && cursor.step_idx >= start.step_idx),
        decreases plan.phases@.len() - cursor.phase_idx, walk_measure(*plan, *cursor),
    {
        if cursor.phase_idx >= plan.phases.len() {
            let ghost before = *plan;
            plan.status = PlanStatus::Completed;
            proof {
                assert(plan.phases@ == before.phases@);
                assert forall|q: int, j: int| valid_pos(old_plan, q, j) implies
                    step_same_but_status(step_at(old_plan, q, j), #[trigger] step_at(*plan, q, j)) by {
                    assert(step_at(*plan, q, j) == step_at(before, q, j));
                }
                assert forall|q: int, j: int| valid_pos(*plan, q, j) && passed(start, *cursor, q, j)
                    implies #[trigger] step_at(*plan, q, j).status != StepStatus::Pending by {
                    assert(valid_pos(before, q, j));
                    assert(step_at(*plan, q, j) == step_at(before, q, j));
                }
            }
            return PlanMove::Finished;
        }
        let p = cursor.phase_idx;
        set_phase_status(plan, p, PhaseStatus::Running);
        if cursor.step_idx < plan.phases[p].steps.len() {
            let k = cursor.step_idx;
            if plan.phases[p].steps[k].status == StepStatus::Pending {
                let id = plan.phases[p].steps[k].id.clone();
                if !check_dependencies_met(plan, id.as_str()) {
                    let ghost before_set = *plan;
                    let ghost before_push = skipped@;
                    let ghost before_cursor = *cursor;
                    proof {
                        assert(id@ == id_at(*plan, p as int, k as int));
                        assert(step_same_but_status(step_at(old_plan, p as int, k as int), step_at(*plan, p as int, k as int)));
                        assert(id_at(*plan, p as int, k as int) == id_at(old_plan, p as int, k as int));
                        assert forall|q: int, j: int| valid_pos(old_plan, q, j) && settled(step_at(old_plan, q, j).status)
                            implies settled(#[trigger] step_at(*plan, q, j).status) by {
                        }
                        if dependencies_met(old_plan, id@) {
                            lemma_met_monotone(old_plan, *plan, id@);
                        }
                    }
                    set_step_status(plan, p, k, StepStatus::Skipped);
                    skipped.push((p, k));
                    proof {
                        assert(skipped@.take(old_skipped.len() as int) =~= before_push.take(old_skipped.len() as int));
                        assert(skipped@[skipped@.len() - 1] == (p, k));
                        assert forall|q: int, j: int| valid_pos(old_plan, q, j) implies {
                            ||| (#[trigger] step_at(*plan, q, j)).status == step_at(old_plan, q, j).status
                            ||| step_at(old_plan, q, j).status == StepStatus::Pending
                                && step_at(*plan, q, j).status == StepStatus::Skipped
                                && listed(skipped@, q, j)
                        } by {
                            if q == p && j == k {
                                assert(skipped@[skipped@.len() - 1].0 == q);
                            } else {
                                assert(step_at(*plan, q, j) == step_at(before_set, q, j));
                                if step_at(before_set, q, j).status != step_at(old_plan, q, j).status {
                                    let t = choose|t: int| 0 <= t < before_push.len() && (#[trigger] before_push[t]).0 == q && before_push[t].1 == j;
                                    assert(skipped@[t] == before_push[t]);
                                }
                            }
                        }
                        assert forall|i: int| old_skipped.len() <= i < skipped@.len() implies {
                            let (q, j) = #[trigger] skipped@[i];
                            &&& valid_pos(old_plan, q as int, j as int)
                            &&& step_at(old_plan, q as int, j as int).status == StepStatus::Pending
                            &&& step_at(*plan, q as int, j as int).status == StepStatus::Skipped
                            &&& !dependencies_met(old_plan, id_at(old_plan, q as int, j as int))
                        } by {
                            if i < skipped@.len() - 1 {
                                assert(skipped@[i] == before_push[i]);
                            }
                        }
                    }
                    cursor.step_idx = k + 1;
                    proof {
                        assert forall|q: int, j: int| valid_pos(*plan, q, j) && passed(start, *cursor, q, j)
                            implies #[trigger] step_at(*plan, q, j).status != StepStatus::Pending by {
                            if !(q == p && j == k) {
                                assert(passed(start, before_cursor, q, j));
                                assert(step_at(*plan, q, j) == step_at(before_set, q, j));
                            }
                        }
                    }
                    continue;
                }
            }
            return PlanMove::RunStep;
        } else {
            let ghost before_phase = *plan;
            let ghost before_cursor = *cursor;
            set_phase_status(plan, p, PhaseStatus::Completed);
            cursor.phase_idx = p + 1;
            cursor.step_idx = 0;
            proof {
                assert forall|q: int, j: int| valid_pos(*plan, q, j) && passed(start, *cursor, q, j)
                    implies #[trigger] step_at(*plan, q, j).status != StepStatus::Pending by {
                    assert(valid_pos(before_phase, q, j));
                    assert(step_at(*plan, q, j) == step_at(before_phase, q, j));
                    assert(passed(start, before_cursor, q, j));
                }
            }
        }
    }
}

/// Mark the step at the cursor as running.
pub fn start_step(plan: &mut ExecutionPlan, cursor: &PlanCursor)
    requires
        valid_pos(*old(plan), cursor.phase_idx as int, cursor.step_idx as int),
    ensures
        others_unchanged(*old(plan), *final(plan), cursor.phase_idx as int, cursor.step_idx as int),
        step_at(*final(plan), cursor.phase_idx as int, cursor.step_idx as int) == (PlanStep {
            status: StepStatus::Running,
            ..step_at(*old(plan), cursor.phase_idx as int, cursor.step_idx as int)
        }),
{
    set_step_status(plan, cursor.phase_idx, cursor.step_idx, StepStatus::Running);
}


// ── Recovery bookkeeping ────────────────────────────────────────────────────

/// A small table from string keys to values; a key occurs at most once.
pub struct KeyTable<V> {
    entries: Vec<(String, V)>,
}

impl<V> KeyTable<V> {
    #[verifier::type_invariant]
    spec fn keys_distinct(&self) -> bool {
        forall|i: int, j: int| 0 <= i < j < self.entries@.len() ==> (#[trigger] self.entries@[i]).0@ != (#[trigger] self.entries@[j]).0@
    }

    /// The value stored under `key`, if any.
    pub closed spec fn lookup(&self, key: Seq<char>) -> Option<V> {
        if exists|i: int| 0 <= i < self.entries@.len() && (#[trigger] self.entries@[i]).0@ == key {
            Some(self.entries@[choose|i: int| 0 <= i < self.entries@.len() && (#[trigger] self.entries@[i]).0@ == key].1)
        } else {
            None
        }
    }

    /// An empty table.
    pub fn new() -> (t: KeyTable<V>)
        ensures
            forall|k: Seq<char>| #[trigger] t.lookup(k) is None,
    {
        KeyTable { entries: Vec::new() }
    }

    /// The position of `key` in the table, if it is there.
    fn position(&self, key: &str) -> (r: Option<usize>)
        ensures
            match r {
                Some(i) => i < self.entries@.len() && self.entries@[i as int].0@ == key@,
                None => forall|i: int| 0 <= i < self.entries@.len() ==> (#[trigger] self.entries@[i]).0@ != key@,
            },
    {
        let k = string_of(key);
        let mut i: usize = 0;
        while i < self.entries.len()
            invariant
                k@ == key@,
                i <= self.entries@.len(),
                forall|j: int| 0 <= j < i ==> (#[trigger] self.entries@[j]).0@ != key@,
            decreases self.entries@.len() - i,
        {
            if self.entries[i].0 == k {
                return Some(i);
            }
            i = i + 1;
        }
        None
    }

    /// The value stored under `key`, if any.
    pub fn get(&self, key: &str) -> (r: Option<&V>)
        ensures
            match r {
                Some(v) => self.lookup(key@) == Some(*v),
                None => self.lookup(key@) is None,
            },
    {
        proof {
            use_type_invariant(self);
        }
        match self.position(key) {
            Some(i) => {
                proof {
                    let c = choose|j: int| 0 <= j < self.entries@.len() && (#[trigger] self.entries@[j]).0@ == key@;
                    if c != i {
                        if c < i {
                            assert(self.entries@[c].0@ != self.entries@[i as int].0@);
                        } else {
                            assert(self.entries@[i as int].0@ != self.entries@[c].0@);
                        }
                    }
                }
                Some(&self.entries[i].1)
            },
            None => None,
        }
    }

    /// Store `value` under `key`, replacing what was there.
    pub fn insert(&mut self, key: &str, value: V)
        ensures
            forall|k: Seq<char>| #[trigger] final(self).lookup(k) == if k == key@ {
                Some(value)
            } else {
                old(self).lookup(k)
            },
    {
        proof {
            use_type_invariant(&*self);
        }
        let ghost old_entries = self.entries@;
        match self.position(key) {
            Some(i) => {
                let k = self.entries[i].0.clone();
                let ghost before = self.entries@;
                let mut entries: Vec<(String, V)> = Vec::new();
                std::mem::swap(&mut entries, &mut self.entries);
                entries.set(i, (k, value));
                std::mem::swap(&mut entries, &mut self.entries);
                proof {
                    assert forall|a: int, b: int| 0 <= a < b < self.entries@.len() implies
                        (#[trigger] self.entries@[a]).0@ != (#[trigger] self.entries@[b]).0@ by {
                        assert(before[a].0@ != before[b].0@);
                    }
                }
                proof {
                    assert forall|q: Seq<char>| #[trigger] self.lookup(q) == if q == key@ {
                        Some(value)
                    } else {
                        old(self).lookup(q)
                    } by {
                        if q == key@ {
                            let c = choose|j: int| 0 <= j < self.entries@.len() && (#[trigger] self.entries@[j]).0@ == q;
                            assert(self.entries@[i as int].0@ == q);
                            if c != i {
                                if c < i {
                                    assert(self.entries@[c].0@ != self.entries@[i as int].0@);
                                } else {
                                    assert(self.entries@[i as int].0@ != self.entries@[c].0@);
                                }
                            }
                        } else {
                            if exists|j: int| 0 <= j < self.entries@.len() && (#[trigger] self.entries@[j]).0@ == q {
                                let c = choose|j: int| 0 <= j < self.entries@.len() && (#[trigger] self.entries@[j]).0@ == q;
                                assert(old_entries[c].0@ == q);
                                let c2 = choose|j: int| 0 <= j < old_entries.len() && (#[trigger] old_entries[j]).0@ == q;
                                if c != c2 {
                                    if c < c2 {
                                        assert(old_entries[c].0@ != old_entries[c2].0@);
                                    } else {
                                        assert(old_entries[c2].0@ != old_entries[c].0@);
                                    }
                                }
                            } else {
                                assert forall|j: int| 0 <= j < old_entries.len() implies (#[trigger] old_entries[j]).0@ != q by {
                                    assert(self.entries@[j].0@ == old_entries[j].0@ || j == i);
                                }
                            }
                        }
                    }
                }
            },
            None => {
                let ghost before = self.entries@;
                let mut entries: Vec<(String, V)> = Vec::new();
                std::mem::swap(&mut entries, &mut self.entries);
                entries.push((string_of(key), value));
                std::mem::swap(&mut entries, &mut self.entries);
                proof {
                    assert forall|a: int, b: int| 0 <= a < b < self.entries@.len() implies
                        (#[trigger] self.entries@[a]).0@ != (#[trigger] self.entries@[b]).0@ by {
                        if b < before.len() {
                            assert(before[a].0@ != before[b].0@);
                        } else {
                            assert(before[a].0@ != key@);
                        }
                    }
                }
                proof {
                    let n = before.len() as int;
                    assert forall|q: Seq<char>| #[trigger] self.lookup(q) == if q == key@ {
                        Some(value)
                    } else {
                        old(self).lookup(q)
                    } by {
                        if q == key@ {
                            assert(self.entries@[n].0@ == q);
                            let c = choose|j: int| 0 <= j < self.entries@.len() && (#[trigger] self.entries@[j]).0@ == q;
                            if c != n {
                                assert(before[c].0@ != key@);
                            }
                        } else {
                            if exists|j: int| 0 <= j < self.entries@.len() && (#[trigger] self.entries@[j]).0@ == q {
                                let c = choose|j: int| 0 <= j < self.entries@.len() && (#[trigger] self.entries@[j]).0@ == q;
                                assert(c < n);
                                assert(before[c].0@ == q);
                                let c2 = choose|j: int| 0 <= j < before.len() && (#[trigger] before[j]).0@ == q;
                                if c != c2 {
                                    if c < c2 {
                                        assert(before[c].0@ != before[c2].0@);
                                    } else {
                                        assert(before[c2].0@ != before[c].0@);
                                    }
                                }
                            } else {
                                assert forall|j: int| 0 <= j < before.len() implies (#[trigger] before[j]).0@ != q by {
                                    assert(self.entries@[j] == before[j]);
                                }
                            }
                        }
                    }
                }
            },
        }
    }
}


/// Retry, alternative and replan counts of a plan run. Counts are kept per
/// root step: an alternative step is accounted to the step it replaces.
pub struct RecoveryBook {
    pub retries: KeyTable<usize>,
    pub alternatives: KeyTable<usize>,
    /// Alternative step id to the root step it stands for.
    pub roots: KeyTable<String>,
    pub replan_count: usize,
}

/// The count stored under `k`, 0 when there is none.
pub open spec fn count_in(t: KeyTable<usize>, k: Seq<char>) -> usize {
    match t.lookup(k) {
        Some(n) => n,
        None => 0,
    }
}

/// The root step that the step `id` is accounted to.
pub open spec fn root_of(book: RecoveryBook, id: Seq<char>) -> Seq<char> {
    match book.roots.lookup(id) {
        Some(r) => r@,
        None => id,
    }
}

impl RecoveryBook {
    /// A book with no counts.
    pub fn new() -> (b: RecoveryBook)
        ensures
            forall|k: Seq<char>| #[trigger] b.retries.lookup(k) is None,
            forall|k: Seq<char>| #[trigger] b.alternatives.lookup(k) is None,
            forall|k: Seq<char>| #[trigger] b.roots.lookup(k) is None,
            b.replan_count == 0,
    {
        RecoveryBook { retries: KeyTable::new(), alternatives: KeyTable::new(), roots: KeyTable::new(), replan_count: 0 }
    }

    /// The root step that the step `step_id` is accounted to.
    pub fn root_id(&self, step_id: &str) -> (r: String)
        ensures
            r@ == root_of(*self, step_id@),
    {
        match self.roots.get(step_id) {
            Some(r) => r.clone(),
            None => string_of(step_id),
        }
    }

    /// The retries spent on the root step `root`.
    pub fn retry_count(&self, root: &str) -> (n: usize)
        ensures
            n == count_in(self.retries, root@),
    {
        match self.retries.get(root) {
            Some(n) => *n,
            None => 0,
        }
    }

    /// The alternatives tried for the root step `root`.
    pub fn alternative_count(&self, root: &str) -> (n: usize)
        ensures
            n == count_in(self.alternatives, root@),
    {
        match self.alternatives.get(root) {
            Some(n) => *n,
            None => 0,
        }
    }
}

/// How the recovery pipeline is configured.
#[derive(Clone, Copy, Debug)]
pub struct RecoveryLimits {
    /// An adaptive recovery strategy is configured.
    pub adaptive: bool,
    pub max_retries: usize,
    pub max_alternatives: usize,
    pub max_replans: usize,
}

/// What a recovery strategy or policy proposes for a failed step.
#[derive(Debug)]
pub enum RecoveryAction {
    Retry,
    Skip,
    Abort,
    /// Replace the failed step by `step`, accounted to `root_step_id`.
    Alternative { step: PlanStep, root_step_id: String },
    /// Append `steps` to the current phase; with `clear_future_phases`,
    /// drop the pending steps of the later phases.
    Replan { steps: Vec<PlanStep>, clear_future_phases: bool },
}

/// The first stage of handling a failed step.
#[derive(Debug)]
pub enum FailureStage {
    /// Framework retry: wait `backoff_ms`, then run the step again (it is
    /// pending again); this is retry number `retry_count` of its root step.
    Backoff { retry_count: usize, backoff_ms: u64 },
    /// Ask the adaptive strategy, with these counts in its context.
    AskAdaptive { root_id: String, retry_count: usize, alternative_count: usize, replan_count: usize },
    /// Ask the fallback policy, with this retry count.
    AskFallback { root_id: String, retry_count: usize },
}

/// Where the runner goes after a failure was handled.
#[derive(Clone, Copy, Debug, PartialEq, Eq, Structural)]
pub enum FailureResolution {
    /// Run the same step again.
    Retry,
    /// Go on with the next step.
    Skip,
    /// Go on with the step at this index of the current phase.
    JumpTo(usize),
    /// Stop the plan.
    Abort,
}

/// Record a step's result at the cursor. A successful step is completed and
/// the cursor moves past it; a failed one keeps its status and awaits
/// recovery. Returns whether the step succeeded.
pub fn record_step_result(plan: &mut ExecutionPlan, cursor: &mut PlanCursor, result: StepResult) -> (ok: bool)
    requires
        cursor_ok(*old(plan), *old(cursor)),
        valid_pos(*old(plan), old(cursor).phase_idx as int, old(cursor).step_idx as int),
    ensures
        ok == result.success,
        cursor_ok(*final(plan), *final(cursor)),
        others_unchanged(*old(plan), *final(plan), old(cursor).phase_idx as int, old(cursor).step_idx as int),
        step_at(*final(plan), old(cursor).phase_idx as int, old(cursor).step_idx as int) == (PlanStep {
            status: if ok { StepStatus::Completed } else { step_at(*old(plan), old(cursor).phase_idx as int, old(cursor).step_idx as int).status },
            result: Some(result),
            ..step_at(*old(plan), old(cursor).phase_idx as int, old(cursor).step_idx as int)
        }),
        final(cursor).phase_idx == old(cursor).phase_idx,
        final(cursor).step_idx == if ok { old(cursor).step_idx + 1 } else { old(cursor).step_idx as int },
{
    let ok = result.success;
    let (p, k) = (cursor.phase_idx, cursor.step_idx);
    let n = plan.phases[p].steps.len();
    assert(k < n);
    plan.phases[p].steps[k].result = Some(result);
    if ok {
        plan.phases[p].steps[k].status = StepStatus::Completed;
        cursor.step_idx = k + 1;
    }
    ok
}

/// Make the step at `(p, k)` pending again, without a result.
fn reset_step(plan: &mut ExecutionPlan, p: usize, k: usize)
    requires
        valid_pos(*old(plan), p as int, k as int),
    ensures
        others_unchanged(*old(plan), *final(plan), p as int, k as int),
        step_at(*final(plan), p as int, k as int) == (PlanStep {
            status: StepStatus::Pending,
            result: None,
            ..step_at(*old(plan), p as int, k as int)
        }),
{
    plan.phases[p].steps[k].status = StepStatus::Pending;
    plan.phases[p].steps[k].result = None;
}

/// The framework retry's wait before retry number `n`.
pub open spec fn backoff_for(n: nat) -> nat {
    100 * n
}

/// Start handling the failure of the step at the cursor, whose id is
/// `step_id`. With an adaptive strategy and retries left for the step's root
/// step, the framework retries: the retry is counted, the step is pending
/// again, and the runner waits before running it. Otherwise the runner asks
/// the adaptive strategy, or the fallback policy when there is none; plan and
/// book are then unchanged.
pub fn begin_step_failure(
    plan: &mut ExecutionPlan,
    book: &mut RecoveryBook,
    cursor: &PlanCursor,
    step_id: &str,
    limits: &RecoveryLimits,
) -> (stage: FailureStage)
    requires
        valid_pos(*old(plan), cursor.phase_idx as int, cursor.step_idx as int),
        ({
            let retry = count_in(old(book).retries, root_of(*old(book), step_id@));
            limits.adaptive && retry < limits.max_retries ==> backoff_for((retry + 1) as nat) <= u64::MAX
        }),
    ensures
        ({
            let root = root_of(*old(book), step_id@);
            let retry = count_in(old(book).retries, root);
            if limits.adaptive && retry < limits.max_retries {
                &&& stage == FailureStage::Backoff { retry_count: (retry + 1) as usize, backoff_ms: backoff_for((retry + 1) as nat) as u64 }
                &&& forall|k: Seq<char>| #[trigger] final(book).retries.lookup(k) == if k == root {
                    Some((retry + 1) as usize)
                } else {
                    old(book).retries.lookup(k)
                }
                &&& final(book).alternatives == old(book).alternatives
                &&& final(book).roots == old(book).roots
                &&& final(book).replan_count == old(book).replan_count
                &&& others_unchanged(*old(plan), *final(plan), cursor.phase_idx as int, cursor.step_idx as int)
                &&& step_at(*final(plan), cursor.phase_idx as int, cursor.step_idx as int) == (PlanStep {
                    status: StepStatus::Pending,
                    result: None,
                    ..step_at(*old(plan), cursor.phase_idx as int, cursor.step_idx as int)
                })
            } else {
                &&& *final(plan) == *old(plan)
                &&& *final(book) == *old(book)
                &&& if limits.adaptive {
                    stage matches FailureStage::AskAdaptive { root_id, retry_count, alternative_count, replan_count }
                        && root_id@ == root && retry_count == retry
                        && alternative_count == count_in(old(book).alternatives, root)
                        && replan_count == old(book).replan_count
                } else {
                    stage matches FailureStage::AskFallback { root_id, retry_count } && root_id@ == root && retry_count == retry
                }
            }
        }),
{
    let root = book.root_id(step_id);
    let retry = book.retry_count(root.as_str());
    if limits.adaptive && retry < limits.max_retries {
        book.retries.insert(root.as_str(), retry + 1);
        reset_step(plan, cursor.phase_idx, cursor.step_idx);
        let n: u64 = (retry + 1) as u64;
        return FailureStage::Backoff { retry_count: retry + 1, backoff_ms: 100 * n };
    }
    if limits.adaptive {
        let alt = book.alternative_count(root.as_str());
        FailureStage::AskAdaptive { root_id: root, retry_count: retry, alternative_count: alt, replan_count: book.replan_count }
    } else {
        FailureStage::AskFallback { root_id: root, retry_count: retry }
    }
}


/// `b` is `a` but for the steps of phase `p`.
pub open spec fn phase_rest_same(a: ExecutionPlan, b: ExecutionPlan, p: int) -> bool {
    &&& b.id == a.id
    &&& b.status == a.status
    &&& b.phases@.len() == a.phases@.len()
    &&& forall|q: int| 0 <= q < a.phases@.len() && q != p ==> #[trigger] b.phases@[q] == a.phases@[q]
    &&& b.phases@[p].name == a.phases@[p].name
    &&& b.phases@[p].status == a.phases@[p].status
}

/// `s` marked failed.
pub open spec fn failed_step(s: PlanStep) -> PlanStep {
    PlanStep { status: StepStatus::Failed, ..s }
}

/// `steps` with every pending step at an index in `[from, to)` skipped: the
/// steps left behind when the runner jumps to a new step at `to`.
pub open spec fn skip_orphans(steps: Seq<PlanStep>, from: int, to: int) -> Seq<PlanStep> {
    Seq::new(
        steps.len(),
        |i: int|
            if from <= i < to && steps[i].status == StepStatus::Pending {
                PlanStep { status: StepStatus::Skipped, ..steps[i] }
            } else {
                steps[i]
            },
    )
}

/// The steps of `s` that are not pending, in order.
pub open spec fn kept_steps(s: Seq<PlanStep>) -> Seq<PlanStep>
    decreases s.len(),
{
    if s.len() == 0 {
        s
    } else if s.last().status != StepStatus::Pending {
        kept_steps(s.drop_last()).push(s.last())
    } else {
        kept_steps(s.drop_last())
    }
}

/// Append `extra` to the steps of phase `p`.
fn append_steps(plan: &mut ExecutionPlan, p: usize, extra: Vec<PlanStep>)
    requires
        p < old(plan).phases@.len(),
    ensures
        phase_rest_same(*old(plan), *final(plan), p as int),
        final(plan).phases@[p as int].steps@ == old(plan).phases@[p as int].steps@ + extra@,
{
    let mut extra = extra;
    plan.phases[p].steps.append(&mut extra);
}

/// Skip the pending steps of phase `p` at indices in `[from, to)`.
fn mark_orphans(plan: &mut ExecutionPlan, p: usize, from: usize, to: usize)
    requires
        p < old(plan).phases@.len(),
        to <= old(plan).phases@[p as int].steps@.len(),
    ensures
        phase_rest_same(*old(plan), *final(plan), p as int),
        final(plan).phases@[p as int].steps@ == skip_orphans(old(plan).phases@[p as int].steps@, from as int, to as int),
{
    let ghost orig = plan.phases@[p as int].steps@;
    let ghost start = *plan;
    let mut i: usize = from;
    while i < to
        invariant
            p < plan.phases@.len(),
            phase_rest_same(start, *plan, p as int),
            to <= orig.len(),
            from <= i || to <= i,
            plan.phases@[p as int].steps@.len() == orig.len(),
            forall|j: int| 0 <= j < orig.len() ==> #[trigger] plan.phases@[p as int].steps@[j] == if from <= j < i
                && j < to && orig[j].status == StepStatus::Pending {
                PlanStep { status: StepStatus::Skipped, ..orig[j] }
            } else {
                orig[j]
            },
        decreases to - i,
    {
        if plan.phases[p].steps[i].status == StepStatus::Pending {
            plan.phases[p].steps[i].status = StepStatus::Skipped;
        }
        i = i + 1;
    }
    assert(plan.phases@[p as int].steps@ =~= skip_orphans(orig, from as int, to as int));
}

/// Drop the pending steps of every phase after `p`; a phase left without
/// steps is marked skipped.
fn clear_later_phases(plan: &mut ExecutionPlan, p: usize)
    requires
        p < old(plan).phases@.len(),
    ensures
        final(plan).id == old(plan).id,
        final(plan).status == old(plan).status,
        final(plan).phases@.len() == old(plan).phases@.len(),
        forall|q: int| 0 <= q <= p ==> #[trigger] final(plan).phases@[q] == old(plan).phases@[q],
        forall|q: int| p < q < old(plan).phases@.len() ==> {
            &&& (#[trigger] final(plan).phases@[q]).steps@ == kept_steps(old(plan).phases@[q].steps@)
            &&& final(plan).phases@[q].name == old(plan).phases@[q].name
            &&& final(plan).phases@[q].status == if kept_steps(old(plan).phases@[q].steps@).len() == 0 {
                PhaseStatus::Skipped
            } else {
                old(plan).phases@[q].status
            }
        },
{
    let ghost start = *plan;
    let count = plan.phases.len();
    assert(p < count);
    let mut q: usize = p + 1;
    while q < plan.phases.len()
        invariant
            p < q,
            plan.id == start.id,
            plan.status == start.status,
            plan.phases@.len() == start.phases@.len(),
            q <= plan.phases@.len(),
            forall|r: int| (0 <= r <= p || q <= r < start.phases@.len()) ==> #[trigger] plan.phases@[r] == start.phases@[r],
            forall|r: int| p < r < q ==> {
                &&& (#[trigger] plan.phases@[r]).steps@ == kept_steps(start.phases@[r].steps@)
                &&& plan.phases@[r].name == start.phases@[r].name
                &&& plan.phases@[r].status == if kept_steps(start.phases@[r].steps@).len() == 0 {
                    PhaseStatus::Skipped
                } else {
                    start.phases@[r].status
                }
            },
        decreases start.phases@.len() - q,
    {
        let ghost orig = plan.phases@[q as int].steps@;
        let mut rest: Vec<PlanStep> = Vec::new();
        std::mem::swap(&mut rest, &mut plan.phases[q].steps);
        let mut kept: Vec<PlanStep> = Vec::new();
        let ghost mut taken: int = 0;
        while rest.len() > 0
            invariant
                0 <= taken <= orig.len(),
                rest@ == orig.skip(taken),
                kept@ == kept_steps(orig.take(taken)),
            decreases rest@.len(),
        {
            let s = rest.remove(0);
            proof {
                assert(orig.take(taken + 1).drop_last() =~= orig.take(taken));
                assert(orig.take(taken + 1).last() == orig[taken]);
                assert(rest@ =~= orig.skip(taken + 1));
            }
            if s.status != StepStatus::Pending {
                kept.push(s);
            }
            proof {
                taken = taken + 1;
            }
        }
        assert(orig.take(taken) =~= orig);
        let empty = kept.len() == 0;
        std::mem::swap(&mut kept, &mut plan.phases[q].steps);
        if empty {
            plan.phases[q].status = PhaseStatus::Skipped;
        }
        q = q + 1;
    }
}


/// Carry out the adaptive strategy's proposal for the failed step at the
/// cursor, whose root step is `root_id`:
/// - an alternative step is appended to the phase and accounted to its root
///   step (one more alternative for it; its retry count carried over); the
///   failed step is marked failed and the runner jumps to the new step;
/// - a replan, while replans are left, appends the new steps, marks the
///   failed step failed, drops the pending steps of later phases when asked,
///   and jumps to the first new step;
/// - a skip marks the step skipped and moves on.
/// In both jumps the pending steps left between the failed step and the jump
/// target are skipped. Anything else (a retry, an abort, a replan past the
/// limit) changes nothing and returns `None`: the fallback policy decides.
pub fn apply_adaptive_action(
    plan: &mut ExecutionPlan,
    book: &mut RecoveryBook,
    cursor: &mut PlanCursor,
    root_id: &str,
    action: RecoveryAction,
    limits: &RecoveryLimits,
) -> (r: Option<FailureResolution>)
    requires
        cursor_ok(*old(plan), *old(cursor)),
        valid_pos(*old(plan), old(cursor).phase_idx as int, old(cursor).step_idx as int),
        count_in(old(book).alternatives, root_id@) < usize::MAX,
    ensures
        cursor_ok(*final(plan), *final(cursor)),
        final(cursor).phase_idx == old(cursor).phase_idx,
        ({
            let p = old(cursor).phase_idx as int;
            let k = old(cursor).step_idx as int;
            let steps = old(plan).phases@[p].steps@;
            let n = steps.len() as int;
            match action {
                RecoveryAction::Alternative { step, root_step_id } => {
                    &&& r == Some(FailureResolution::JumpTo(n as usize))
                    &&& final(cursor).step_idx == n
                    &&& phase_rest_same(*old(plan), *final(plan), p)
                    &&& final(plan).phases@[p].steps@ == skip_orphans(steps.update(k, failed_step(steps[k])).push(step), k + 1, n)
                    &&& forall|key: Seq<char>| #[trigger] final(book).alternatives.lookup(key) == if key == root_step_id@ {
                        Some((count_in(old(book).alternatives, root_id@) + 1) as usize)
                    } else {
                        old(book).alternatives.lookup(key)
                    }
                    &&& forall|key: Seq<char>| #[trigger] final(book).roots.lookup(key) == if key == step.id@ {
                        Some(root_step_id)
                    } else {
                        old(book).roots.lookup(key)
                    }
                    &&& forall|key: Seq<char>| #[trigger] final(book).retries.lookup(key) == if key == root_step_id@ {
                        Some(count_in(old(book).retries, root_step_id@))
                    } else {
                        old(book).retries.lookup(key)
                    }
                    &&& final(book).replan_count == old(book).replan_count
                },
                RecoveryAction::Replan { steps: new_steps, clear_future_phases } => if old(book).replan_count < limits.max_replans {
                    &&& r == Some(FailureResolution::JumpTo(n as usize))
                    &&& final(cursor).step_idx == n
                    &&& final(book).replan_count == old(book).replan_count + 1
                    &&& final(book).retries == old(book).retries
                    &&& final(book).alternatives == old(book).alternatives
                    &&& final(book).roots == old(book).roots
                    &&& final(plan).id == old(plan).id
                    &&& final(plan).status == old(plan).status
                    &&& final(plan).phases@.len() == old(plan).phases@.len()
                    &&& final(plan).phases@[p].steps@ == skip_orphans(steps.update(k, failed_step(steps[k])) + new_steps@, k + 1, n)
                    &&& final(plan).phases@[p].name == old(plan).phases@[p].name
                    &&& final(plan).phases@[p].status == old(plan).phases@[p].status
                    &&& forall|q: int| 0 <= q < p ==> #[trigger] final(plan).phases@[q] == old(plan).phases@[q]
                    &&& forall|q: int| p < q < old(plan).phases@.len() ==> if clear_future_phases {
                        &&& (#[trigger] final(plan).phases@[q]).steps@ == kept_steps(old(plan).phases@[q].steps@)
                        &&& final(plan).phases@[q].name == old(plan).phases@[q].name
                        &&& final(plan).phases@[q].status == if kept_steps(old(plan).phases@[q].steps@).len() == 0 {
                            PhaseStatus::Skipped
                        } else {
                            old(plan).phases@[q].status
                        }
                    } else {
                        final(plan).phases@[q] == old(plan).phases@[q]
                    }
                } else {
                    &&& r is None
                    &&& *final(plan) == *old(plan)
                    &&& *final(book) == *old(book)
                    &&& *final(cursor) == *old(cursor)
                },
                RecoveryAction::Skip => {
                    &&& r == Some(FailureResolution::Skip)
                    &&& final(cursor).step_idx == k + 1
                    &&& *final(book) == *old(book)
                    &&& others_unchanged(*old(plan), *final(plan), p, k)
                    &&& step_at(*final(plan), p, k) == (PlanStep { status: StepStatus::Skipped, ..steps[k] })
                },
                _ => {
                    &&& r is None
                    &&& *final(plan) == *old(plan)
                    &&& *final(book) == *old(book)
                    &&& *final(cursor) == *old(cursor)
                },
            }
        }),
{
    let p = cursor.phase_idx;
    let k = cursor.step_idx;
    let n = plan.phases[p].steps.len();
    let ghost steps = plan.phases@[p as int].steps@;
    let ghost start = *plan;
    match action {
        RecoveryAction::Alternative { step, root_step_id } => {
            let alt = book.alternative_count(root_id);
            book.alternatives.insert(root_step_id.as_str(), alt + 1);
            book.roots.insert(step.id.as_str(), root_step_id.clone());
            let inherited = book.retry_count(root_step_id.as_str());
            book.retries.insert(root_step_id.as_str(), inherited);
            let mut extra: Vec<PlanStep> = Vec::new();
            extra.push(step);
            append_steps(plan, p, extra);
            set_step_status(plan, p, k, StepStatus::Failed);
            let ghost mid = *plan;
            mark_orphans(plan, p, k + 1, n);
            proof {
                assert(mid.phases@[p as int].steps@ =~= steps.update(k as int, failed_step(steps[k as int])).push(step));
                assert forall|q: int| 0 <= q < start.phases@.len() && q != p implies #[trigger] plan.phases@[q] == start.phases@[q] by {
                    assert(mid.phases@[q].steps@ =~= start.phases@[q].steps@);
                }
            }
            cursor.step_idx = n;
            Some(FailureResolution::JumpTo(n))
        },
        RecoveryAction::Replan { steps: new_steps, clear_future_phases } => {
            if book.replan_count < limits.max_replans {
                let ghost added = new_steps@;
                book.replan_count = book.replan_count + 1;
                set_step_status(plan, p, k, StepStatus::Failed);
                append_steps(plan, p, new_steps);
                let ghost mid = *plan;
                proof {
                    assert(mid.phases@[p as int].steps@ =~= steps.update(k as int, failed_step(steps[k as int])) + added);
                    assert forall|q: int| 0 <= q < start.phases@.len() && q != p implies #[trigger] mid.phases@[q] == start.phases@[q] by {
                        assert(mid.phases@[q].steps@ =~= start.phases@[q].steps@);
                    }
                }
                if clear_future_phases {
                    clear_later_phases(plan, p);
                }
                mark_orphans(plan, p, k + 1, n);
                cursor.step_idx = n;
                Some(FailureResolution::JumpTo(n))
            } else {
                None
            }
        },
        RecoveryAction::Skip => {
            set_step_status(plan, p, k, StepStatus::Skipped);
            cursor.step_idx = k + 1;
            Some(FailureResolution::Skip)
        },
        _ => None,
    }
}

/// Carry out the fallback policy's decision for the failed step at the
/// cursor, whose root step is `root_id`: a retry makes the step pending again
/// and counts the retry; a skip marks it skipped and moves on; anything else
/// aborts, marking the step, its phase and the plan failed.
pub fn apply_fallback_action(
    plan: &mut ExecutionPlan,
    book: &mut RecoveryBook,
    cursor: &mut PlanCursor,
    root_id: &str,
    action: RecoveryAction,
) -> (r: FailureResolution)
    requires
        cursor_ok(*old(plan), *old(cursor)),
        valid_pos(*old(plan), old(cursor).phase_idx as int, old(cursor).step_idx as int),
        count_in(old(book).retries, root_id@) < usize::MAX,
    ensures
        cursor_ok(*final(plan), *final(cursor)),
        final(cursor).phase_idx == old(cursor).phase_idx,
        final(book).alternatives == old(book).alternatives,
        final(book).roots == old(book).roots,
        final(book).replan_count == old(book).replan_count,
        ({
            let p = old(cursor).phase_idx as int;
            let k = old(cursor).step_idx as int;
            let s = step_at(*old(plan), p, k);
            match action {
                RecoveryAction::Retry => {
                    &&& r == FailureResolution::Retry
                    &&& *final(cursor) == *old(cursor)
                    &&& others_unchanged(*old(plan), *final(plan), p, k)
                    &&& step_at(*final(plan), p, k) == (PlanStep { status: StepStatus::Pending, result: None, ..s })
                    &&& forall|key: Seq<char>| #[trigger] final(book).retries.lookup(key) == if key == root_id@ {
                        Some((count_in(old(book).retries, root_id@) + 1) as usize)
                    } else {
                        old(book).retries.lookup(key)
                    }
                },
                RecoveryAction::Skip => {
                    &&& r == FailureResolution::Skip
                    &&& final(cursor).step_idx == k + 1
                    &&& final(book).retries == old(book).retries
                    &&& others_unchanged(*old(plan), *final(plan), p, k)
                    &&& step_at(*final(plan), p, k) == (PlanStep { status: StepStatus::Skipped, ..s })
                },
                _ => {
                    &&& r == FailureResolution::Abort
                    &&& *final(cursor) == *old(cursor)
                    &&& final(book).retries == old(book).retries
                    &&& final(plan).status == PlanStatus::Failed
                    &&& final(plan).phases@[p].status == PhaseStatus::Failed
                    &&& step_at(*final(plan), p, k) == failed_step(s)
                    &&& same_but_statuses(*old(plan), *final(plan))
                    &&& forall|q: int, j: int| valid_pos(*old(plan), q, j) && !(q == p && j == k)
                        ==> #[trigger] step_at(*final(plan), q, j) == step_at(*old(plan), q, j)
                    &&& forall|q: int| 0 <= q < old(plan).phases@.len() && q != p
                        ==> (#[trigger] final(plan).phases@[q]).status == old(plan).phases@[q].status
                },
            }
        }),
{
    let p = cursor.phase_idx;
    let k = cursor.step_idx;
    let n = plan.phases[p].steps.len();
    assert(k < n);
    match action {
        RecoveryAction::Retry => {
            reset_step(plan, p, k);
            let c = book.retry_count(root_id);
            book.retries.insert(root_id, c + 1);
            FailureResolution::Retry
        },
        RecoveryAction::Skip => {
            set_step_status(plan, p, k, StepStatus::Skipped);
            cursor.step_idx = k + 1;
            FailureResolution::Skip
        },
        _ => {
            set_step_status(plan, p, k, StepStatus::Failed);
            set_phase_status(plan, p, PhaseStatus::Failed);
            let ghost before = *plan;
            plan.status = PlanStatus::Failed;
            proof {
                assert(plan.phases@ == before.phases@);
                assert forall|q: int, j: int| valid_pos(before, q, j) implies #[trigger] step_at(*plan, q, j) == step_at(before, q, j) by {}
            }
            FailureResolution::Abort
        },
    }
}

/// When the walk over a plan has passed its last phase, every phase of the
/// plan is completed.
pub proof fn law_finished_walk_completes_every_phase(plan: ExecutionPlan, cursor: PlanCursor)
    requires
        cursor_ok(plan, cursor),
        cursor.phase_idx == plan.phases@.len(),
    ensures
        forall|q: int| 0 <= q < plan.phases@.len() ==> (#[trigger] plan.phases@[q]).status == PhaseStatus::Completed,
{
}

} // verus!
