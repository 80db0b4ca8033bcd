//! Control of the FracGM iteration.
//!
//! The numerical work of one iteration (assembling the system, solving it,
//! refreshing the terms and measuring the residual) is done by the caller.
//! What is decided here is when to iterate and when to stop: the engine is a
//! state machine that is told the outcome of each iteration and answers with
//! the next thing to do.

use vstd::prelude::*;
use crate::error::SolveError;
use crate::matrix::{Grid, Matrix};
use crate::shape::{check_clouds, clouds_match, Shape};

verus! {

/// Where a solve stands.
#[derive(Clone, Copy, Debug, PartialEq, Eq, Structural)]
pub enum Phase {
    /// Shapes are checked; the initial guess has not been encoded yet.
    Init,
    /// Iterations remain and the residual has not fallen below the tolerance.
    Solving,
    /// The residual fell below the tolerance.
    Converged,
    /// The iteration cap was reached. This is a regular outcome, not a failure.
    Exhausted,
}

/// What the caller does next.
#[derive(Clone, Copy, Debug, PartialEq, Eq, Structural)]
pub enum Action {
    /// Assemble and solve the system once more, then report the residual test.
    Iterate,
    /// Project the current parameter vector and return it.
    Finish,
}

/// Mathematical model of the engine.
pub struct Control {
    pub max_iteration: nat,
    pub n_terms: nat,
    pub n_iters: nat,
    pub phase: Phase,
}

impl Control {
    /// The counter never passes the cap, and each phase fixes what the counter can be.
    pub open spec fn wf(self) -> bool {
        &&& self.n_iters <= self.max_iteration
        &&& self.phase == Phase::Init ==> self.n_iters == 0
        &&& self.phase == Phase::Solving ==> self.n_iters < self.max_iteration
        &&& self.phase == Phase::Converged ==> self.n_iters >= 1
        &&& self.phase == Phase::Exhausted ==> self.n_iters == self.max_iteration
    }

    /// The solve has ended.
    pub open spec fn is_terminal(self) -> bool {
        self.phase == Phase::Converged || self.phase == Phase::Exhausted
    }

    /// The state before anything has been computed.
    pub open spec fn initial(max_iteration: nat, n_terms: nat) -> Control {
        Control { max_iteration, n_terms, n_iters: 0, phase: Phase::Init }
    }

    /// The state once the initial guess is encoded and the auxiliary variables are set.
    pub open spec fn started(self) -> Control {
        if self.phase != Phase::Init {
            self
        } else if self.max_iteration == 0 {
            Control { phase: Phase::Exhausted, ..self }
        } else {
            Control { phase: Phase::Solving, ..self }
        }
    }

    /// The state after one more iteration whose residual test gave `converged`.
    pub open spec fn stepped(self, converged: bool) -> Control {
        if self.phase != Phase::Solving {
            self
        } else if converged {
            Control { n_iters: self.n_iters + 1, phase: Phase::Converged, ..self }
        } else if self.n_iters + 1 == self.max_iteration {
            Control { n_iters: self.n_iters + 1, phase: Phase::Exhausted, ..self }
        } else {
            Control { n_iters: self.n_iters + 1, ..self }
        }
    }

    /// What the caller does in this state.
    pub open spec fn action(self) -> Action {
        if self.phase == Phase::Solving {
            Action::Iterate
        } else {
            Action::Finish
        }
    }

    /// The state after the residual tests `verdicts`, one per iteration, in order.
    /// Tests reported after the solve has ended change nothing.
    pub open spec fn run(self, verdicts: Seq<bool>) -> Control
        decreases verdicts.len(),
    {
        if verdicts.len() == 0 {
            self
        } else {
            self.stepped(verdicts[0]).run(verdicts.drop_first())
        }
    }
}

/// True when no residual test among the first `n` passed.
pub open spec fn none_converged(verdicts: Seq<bool>, n: int) -> bool {
    forall|k: int| 0 <= k < n && k < verdicts.len() ==> !verdicts[k]
}

/// Starting and stepping keep the state well formed and leave the cap and
/// the number of terms alone; the counter grows by at most one per iteration.
pub proof fn lemma_transitions_preserve_wf(c: Control, converged: bool)
    requires
        c.wf(),
    ensures
        c.started().wf(),
        c.stepped(converged).wf(),
        c.started().max_iteration == c.max_iteration,
        c.stepped(converged).max_iteration == c.max_iteration,
        c.started().n_terms == c.n_terms,
        c.stepped(converged).n_terms == c.n_terms,
        c.started().n_iters == c.n_iters,
        c.n_iters <= c.stepped(converged).n_iters <= c.n_iters + 1,
{
}

/// A solve that has ended stays as it is, whatever is reported afterwards.
pub proof fn lemma_terminal_is_absorbing(c: Control, verdicts: Seq<bool>)
    requires
        c.is_terminal(),
    ensures
        c.run(verdicts) == c,
    decreases verdicts.len(),
{
    if verdicts.len() > 0 {
        lemma_terminal_is_absorbing(c, verdicts.drop_first());
    }
}

/// In every state that a run reaches, the iteration counter is at most the cap.
pub proof fn lemma_run_bounded(c: Control, verdicts: Seq<bool>)
    requires
        c.wf(),
    ensures
        c.run(verdicts).wf(),
        c.run(verdicts).n_iters <= c.max_iteration,
        c.run(verdicts).max_iteration == c.max_iteration,
        c.run(verdicts).n_terms == c.n_terms,
    decreases verdicts.len(),
{
    if verdicts.len() > 0 {
        lemma_transitions_preserve_wf(c, verdicts[0]);
        lemma_run_bounded(c.stepped(verdicts[0]), verdicts.drop_first());
    }
}

/// While no residual test passes and iterations remain, the engine keeps
/// iterating and has counted exactly the tests it was given.
pub proof fn lemma_run_keeps_solving(c: Control, verdicts: Seq<bool>)
    requires
        c.wf(),
        c.phase == Phase::Solving,
        none_converged(verdicts, verdicts.len() as int),
        c.n_iters + verdicts.len() < c.max_iteration,
    ensures
        c.run(verdicts) == (Control { n_iters: c.n_iters + verdicts.len(), ..c }),
    decreases verdicts.len(),
{
    if verdicts.len() > 0 {
        let rest = verdicts.drop_first();
        assert(!verdicts[0]);
        assert forall|k: int| 0 <= k < rest.len() implies !rest[k] by {
            assert(rest[k] == verdicts[k + 1]);
        }
        lemma_run_keeps_solving(c.stepped(false), rest);
    }
}

/// The solve converges at the first residual test that passes, provided it
/// comes within the cap, and the counter is then the number of tests made.
pub proof fn lemma_run_converges_at_first_pass(c: Control, verdicts: Seq<bool>, k: int)
    requires
        c.wf(),
        c.phase == Phase::Solving,
        0 <= k < verdicts.len(),
        verdicts[k],
        none_converged(verdicts, k),
        c.n_iters + k < c.max_iteration,
    ensures
        c.run(verdicts) == (Control { n_iters: (c.n_iters + k + 1) as nat, phase: Phase::Converged, ..c }),
    decreases verdicts.len(),
{
    let rest = verdicts.drop_first();
    if k == 0 {
        lemma_terminal_is_absorbing(c.stepped(true), rest);
    } else {
        assert(!verdicts[0]);
        assert(rest[k - 1] == verdicts[k]);
        assert forall|j: int| 0 <= j < k - 1 && j < rest.len() implies !rest[j] by {
            assert(rest[j] == verdicts[j + 1]);
        }
        lemma_run_converges_at_first_pass(c.stepped(false), rest, k - 1);
    }
}

/// When none of the tests within the cap passes and at least as many tests as
/// the cap allows are reported, the solve ends exhausted with the counter at the cap.
pub proof fn lemma_run_exhausts(c: Control, verdicts: Seq<bool>)
    requires
        c.wf(),
        c.phase == Phase::Solving,
        none_converged(verdicts, c.max_iteration - c.n_iters),
        c.n_iters + verdicts.len() >= c.max_iteration,
    ensures
        c.run(verdicts) == (Control { n_iters: c.max_iteration, phase: Phase::Exhausted, ..c }),
    decreases verdicts.len(),
{
    let rest = verdicts.drop_first();
    assert(verdicts.len() > 0);
    assert(!verdicts[0]);
    let next = c.stepped(false);
    if next.phase == Phase::Exhausted {
        lemma_terminal_is_absorbing(next, rest);
    } else {
        assert forall|j: int| 0 <= j < next.max_iteration - next.n_iters && j < rest.len() implies !rest[j] by {
            assert(rest[j] == verdicts[j + 1]);
        }
        lemma_run_exhausts(next, rest);
    }
}

/// The state machine that bounds and ends the FracGM iteration.
pub struct Engine {
    max_iteration: usize,
    n_terms: usize,
    n_iters: usize,
    phase: Phase,
}

impl View for Engine {
    type V = Control;

    closed spec fn view(&self) -> Control {
        Control {
            max_iteration: self.max_iteration as nat,
            n_terms: self.n_terms as nat,
            n_iters: self.n_iters as nat,
            phase: self.phase,
        }
    }
}

impl Engine {
    #[verifier::type_invariant]
    spec fn inv(self) -> bool {
        self@.wf()
    }

    /// Checks the shapes of the two clouds and, when they can be aligned,
    /// returns an engine in its initial state with one term per correspondence.
    pub fn new(max_iteration: usize, src: Shape, dst: Shape) -> (r: Result<Engine, SolveError>)
        ensures
            clouds_match(src, dst) <==> r.is_ok(),
            r matches Ok(e) ==> e@ == Control::initial(max_iteration as nat, src.rows as nat),
            r matches Err(e) ==> e == SolveError::ShapeMismatch,
    {
        match check_clouds(src, dst) {
            Ok(n_terms) => Ok(Engine { max_iteration, n_terms, n_iters: 0, phase: Phase::Init }),
            Err(e) => Err(e),
        }
    }

    /// The current phase.
    pub fn phase(&self) -> (r: Phase)
        ensures
            r == self@.phase,
            self@.wf(),
    {
        proof {
            use_type_invariant(self);
        }
        self.phase
    }

    /// The number of iterations made so far.
    pub fn n_iters(&self) -> (r: usize)
        ensures
            r == self@.n_iters,
            r <= self@.max_iteration,
            self@.wf(),
    {
        proof {
            use_type_invariant(self);
        }
        self.n_iters
    }

    /// The iteration cap.
    pub fn max_iteration(&self) -> (r: usize)
        ensures
            r == self@.max_iteration,
    {
        self.max_iteration
    }

    /// The number of correspondences, which is the number of terms.
    pub fn n_terms(&self) -> (r: usize)
        ensures
            r == self@.n_terms,
    {
        self.n_terms
    }

    /// Whether the solve has ended.
    pub fn is_terminal(&self) -> (r: bool)
        ensures
            r == self@.is_terminal(),
    {
        match self.phase {
            Phase::Converged | Phase::Exhausted => true,
            Phase::Init | Phase::Solving => false,
        }
    }

    /// What the caller does in the current state.
    pub fn action(&self) -> (r: Action)
        ensures
            r == self@.action(),
    {
        match self.phase {
            Phase::Solving => Action::Iterate,
            Phase::Init | Phase::Converged | Phase::Exhausted => Action::Finish,
        }
    }

    /// Records that the initial guess is encoded and the auxiliary variables
    /// are set, and says what to do next. Outside the initial phase this
    /// changes nothing.
    pub fn start(&mut self) -> (r: Action)
        ensures
            old(self)@.wf(),
            final(self)@ == old(self)@.started(),
            final(self)@.wf(),
            r == final(self)@.action(),
    {
        proof {
            use_type_invariant(&*self);
        }
        match self.phase {
            Phase::Init => {
                let phase = if self.max_iteration == 0 {
                    Phase::Exhausted
                } else {
                    Phase::Solving
                };
                *self = Engine {
                    max_iteration: self.max_iteration,
                    n_terms: self.n_terms,
                    n_iters: self.n_iters,
                    phase,
                };
            },
            Phase::Solving | Phase::Converged | Phase::Exhausted => {},
        }
        self.action()
    }

    /// Records one more iteration whose residual test gave `converged`, and
    /// says what to do next. Once the solve has ended this changes nothing.
    pub fn step(&mut self, converged: bool) -> (r: Action)
        ensures
            old(self)@.wf(),
            final(self)@ == old(self)@.stepped(converged),
            final(self)@.wf(),
            r == final(self)@.action(),
    {
        proof {
            use_type_invariant(&*self);
        }
        match self.phase {
            Phase::Solving => {
                let n_iters: usize = self.n_iters + 1;
                let phase = if converged {
                    Phase::Converged
                } else if n_iters == self.max_iteration {
                    Phase::Exhausted
                } else {
                    Phase::Solving
                };
                *self = Engine {
                    max_iteration: self.max_iteration,
                    n_terms: self.n_terms,
                    n_iters,
                    phase,
                };
            },
            Phase::Init | Phase::Converged | Phase::Exhausted => {},
        }
        self.action()
    }
}

/// What is known after one update of the parameter vector.
///
/// `M` is the matrix type of the caller and `S` its scalar.
#[derive(Clone)]
pub struct IterationComponent<M, S> {
    /// The current solution in vector form.
    pub alpha_vec: M,
    /// The current solution in matrix form.
    pub alpha_mat: M,
    /// The current solution projected onto the feasible set.
    pub alpha_proj: M,
    /// The auxiliary variable beta, one entry per term.
    pub beta: Vec<S>,
    /// The auxiliary variable mu, one entry per term.
    pub mu: Vec<S>,
    /// The residual norm that the convergence test looks at.
    pub psi_norm: S,
}

impl<M, S> IterationComponent<M, S> {
    /// Both auxiliary vectors have one entry per term.
    pub open spec fn fits(self, n_terms: nat) -> bool {
        self.beta@.len() == n_terms && self.mu@.len() == n_terms
    }

    /// The matrix form is what `decode` gave for the vector form, and the
    /// projected form is what `project` gave for the matrix form.
    pub open spec fn derived_by<D: Fn(&M) -> M, P: Fn(&M) -> Result<M, SolveError>>(
        self,
        decode: D,
        project: P,
    ) -> bool {
        &&& call_ensures(decode, (&self.alpha_vec,), self.alpha_mat)
        &&& call_ensures(project, (&self.alpha_mat,), Ok::<M, SolveError>(self.alpha_proj))
    }
}

/// `solution` is what `project` gave for what `decode` gave for the
/// parameter vector `alpha`.
pub open spec fn is_projected_solution<M, D: Fn(&M) -> M, P: Fn(&M) -> Result<M, SolveError>>(
    solution: M,
    alpha: M,
    decode: D,
    project: P,
) -> bool {
    exists|mat: M|
        #[trigger] call_ensures(decode, (&alpha,), mat) && call_ensures(
            project,
            (&mat,),
            Ok::<M, SolveError>(solution),
        )
}

/// `project` failed with `error` on what `decode` gave for the parameter vector `alpha`.
pub open spec fn projection_failed<M, D: Fn(&M) -> M, P: Fn(&M) -> Result<M, SolveError>>(
    error: SolveError,
    alpha: M,
    decode: D,
    project: P,
) -> bool {
    exists|mat: M|
        #[trigger] call_ensures(decode, (&alpha,), mat) && call_ensures(
            project,
            (&mat,),
            Err::<M, SolveError>(error),
        )
}

/// The entry of the parameter vector `alpha`: its matrix form by `decode`,
/// the projection of that by `project`, and the auxiliary variables and the
/// residual norm as given. Fails with the error of `project` when the
/// projection fails.
pub fn iteration_component<M, S, D: Fn(&M) -> M, P: Fn(&M) -> Result<M, SolveError>>(
    alpha: M,
    beta: Vec<S>,
    mu: Vec<S>,
    psi_norm: S,
    decode: D,
    project: P,
) -> (r: Result<IterationComponent<M, S>, SolveError>)
    requires
        forall|x: M| call_requires(decode, (&x,)),
        forall|x: M| call_requires(project, (&x,)),
    ensures
        match r {
            Ok(entry) => {
                &&& entry.alpha_vec == alpha
                &&& entry.beta == beta
                &&& entry.mu == mu
                &&& entry.psi_norm == psi_norm
                &&& entry.derived_by(decode, project)
            },
            Err(error) => projection_failed(error, alpha, decode, project),
        },
{
    let alpha_mat = decode(&alpha);
    match project(&alpha_mat) {
        Ok(alpha_proj) => Ok(
            IterationComponent { alpha_vec: alpha, alpha_mat, alpha_proj, beta, mu, psi_norm },
        ),
        Err(error) => {
            assert(call_ensures(decode, (&alpha,), alpha_mat));
            Err(error)
        },
    }
}

/// The record of a whole solve.
#[derive(Clone)]
pub struct Diagnostic<M, S> {
    /// The state before the first iteration, then one entry per iteration.
    pub iterations: Vec<IterationComponent<M, S>>,
    /// The final solution.
    pub solution: M,
    /// The number of iterations made.
    pub n_iters: usize,
}

impl<M, S> Diagnostic<M, S> {
    /// There is one entry more than iterations were made, the iterations stay
    /// within the cap, and every entry has auxiliary vectors of one entry per term.
    pub open spec fn consistent(self, n_terms: nat, max_iteration: nat) -> bool {
        &&& self.iterations@.len() == self.n_iters + 1
        &&& self.n_iters <= max_iteration
        &&& forall|k: int|
            0 <= k < self.iterations@.len() ==> (#[trigger] self.iterations@[k]).fits(n_terms)
    }

    /// Every entry holds the decoding and the projection of its own
    /// parameter vector, and the solution is the projection of the decoding
    /// of the last entry's parameter vector.
    pub open spec fn coherent<D: Fn(&M) -> M, P: Fn(&M) -> Result<M, SolveError>>(
        self,
        decode: D,
        project: P,
    ) -> bool {
        &&& self.iterations@.len() >= 1
        &&& forall|k: int|
            0 <= k < self.iterations@.len() ==> (#[trigger] self.iterations@[k]).derived_by(
                decode,
                project,
            )
        &&& is_projected_solution(self.solution, self.iterations@.last().alpha_vec, decode, project)
    }
}

/// Mathematical model of a recording engine: the control state and the entries so far.
pub struct Trace<M, S> {
    pub control: Control,
    pub iterations: Seq<IterationComponent<M, S>>,
}

impl<M, S> Trace<M, S> {
    /// Nothing is recorded before the start; from then on there is one entry
    /// more than iterations were made, and every entry fits the number of terms.
    pub open spec fn wf(self) -> bool {
        &&& self.control.wf()
        &&& self.control.phase == Phase::Init ==> self.iterations.len() == 0
        &&& self.control.phase != Phase::Init ==> self.iterations.len() == self.control.n_iters + 1
        &&& forall|k: int|
            0 <= k < self.iterations.len() ==> (#[trigger] self.iterations[k]).fits(
                self.control.n_terms,
            )
    }

    /// The trace once the state before the first iteration is recorded.
    pub open spec fn started(self, first: IterationComponent<M, S>) -> Trace<M, S> {
        if self.control.phase == Phase::Init {
            Trace { control: self.control.started(), iterations: self.iterations.push(first) }
        } else {
            self
        }
    }

    /// The trace after one more iteration with its entry and its residual test.
    pub open spec fn stepped(self, entry: IterationComponent<M, S>, converged: bool) -> Trace<
        M,
        S,
    > {
        if self.control.phase == Phase::Solving {
            Trace {
                control: self.control.stepped(converged),
                iterations: self.iterations.push(entry),
            }
        } else {
            self
        }
    }
}

impl<M, S> Trace<M, S> {
    /// Every entry holds the decoding and the projection of its own parameter vector.
    pub open spec fn derived_by<D: Fn(&M) -> M, P: Fn(&M) -> Result<M, SolveError>>(
        self,
        decode: D,
        project: P,
    ) -> bool {
        forall|k: int|
            0 <= k < self.iterations.len() ==> (#[trigger] self.iterations[k]).derived_by(
                decode,
                project,
            )
    }
}

/// Recording an entry that holds the decoding and the projection of its own
/// parameter vector keeps a trace of such entries one of such entries.
pub proof fn lemma_trace_preserves_derivation<
    M,
    S,
    D: Fn(&M) -> M,
    P: Fn(&M) -> Result<M, SolveError>,
>(t: Trace<M, S>, entry: IterationComponent<M, S>, converged: bool, decode: D, project: P)
    requires
        t.derived_by(decode, project),
        entry.derived_by(decode, project),
    ensures
        t.started(entry).derived_by(decode, project),
        t.stepped(entry, converged).derived_by(decode, project),
{
}

/// When decoding and projecting each give one result per argument, the
/// solution of a coherent record is the projected form of its last entry.
pub proof fn lemma_coherent_solution_is_last_projection<
    M,
    S,
    D: Fn(&M) -> M,
    P: Fn(&M) -> Result<M, SolveError>,
>(d: Diagnostic<M, S>, decode: D, project: P)
    requires
        d.coherent(decode, project),
        forall|x: M, a: M, b: M|
            #![trigger call_ensures(decode, (&x,), a), call_ensures(decode, (&x,), b)]
            call_ensures(decode, (&x,), a) && call_ensures(decode, (&x,), b) ==> a == b,
        forall|x: M, a: Result<M, SolveError>, b: Result<M, SolveError>|
            #![trigger call_ensures(project, (&x,), a), call_ensures(project, (&x,), b)]
            call_ensures(project, (&x,), a) && call_ensures(project, (&x,), b) ==> a == b,
    ensures
        d.solution == d.iterations@.last().alpha_proj,
{
    let last = d.iterations@.last();
    assert(last == d.iterations@[d.iterations@.len() - 1]);
    assert(last.derived_by(decode, project));
    let mat = choose|mat: M|
        #[trigger] call_ensures(decode, (&last.alpha_vec,), mat) && call_ensures(
            project,
            (&mat,),
            Ok::<M, SolveError>(d.solution),
        );
    assert(mat == last.alpha_mat);
    assert(Ok::<M, SolveError>(d.solution) == Ok::<M, SolveError>(last.alpha_proj));
}

/// Starting and stepping a well-formed trace with fitting entries keeps it well formed.
pub proof fn lemma_trace_preserves_wf<M, S>(
    t: Trace<M, S>,
    entry: IterationComponent<M, S>,
    converged: bool,
)
    requires
        t.wf(),
        entry.fits(t.control.n_terms),
    ensures
        t.started(entry).wf(),
        t.stepped(entry, converged).wf(),
{
}

/// An engine that also keeps the entry of every update of the parameter vector.
pub struct DiagnosticEngine<M, S> {
    engine: Engine,
    iterations: Vec<IterationComponent<M, S>>,
}

impl<M, S> View for DiagnosticEngine<M, S> {
    type V = Trace<M, S>;

    closed spec fn view(&self) -> Trace<M, S> {
        Trace { control: self.engine@, iterations: self.iterations@ }
    }
}

impl<M, S> DiagnosticEngine<M, S> {
    /// Checks the shapes of the two clouds and, when they can be aligned,
    /// returns a recording engine in its initial state with nothing recorded.
    pub fn new(max_iteration: usize, src: Shape, dst: Shape) -> (r: Result<
        DiagnosticEngine<M, S>,
        SolveError,
    >)
        ensures
            clouds_match(src, dst) <==> r.is_ok(),
            r matches Ok(e) ==> e@.wf() && e@.control == Control::initial(
                max_iteration as nat,
                src.rows as nat,
            ) && e@.iterations.len() == 0,
            r matches Err(e) ==> e == SolveError::ShapeMismatch,
    {
        match Engine::new(max_iteration, src, dst) {
            Ok(engine) => Ok(DiagnosticEngine { engine, iterations: Vec::new() }),
            Err(e) => Err(e),
        }
    }

    /// The current phase.
    pub fn phase(&self) -> (r: Phase)
        ensures
            r == self@.control.phase,
    {
        self.engine.phase()
    }

    /// The number of iterations made so far.
    pub fn n_iters(&self) -> (r: usize)
        ensures
            r == self@.control.n_iters,
            r <= self@.control.max_iteration,
    {
        self.engine.n_iters()
    }

    /// The number of correspondences, which is the number of terms.
    pub fn n_terms(&self) -> (r: usize)
        ensures
            r == self@.control.n_terms,
    {
        self.engine.n_terms()
    }

    /// What the caller does in the current state.
    pub fn action(&self) -> (r: Action)
        ensures
            r == self@.control.action(),
    {
        self.engine.action()
    }

    /// Records the state before the first iteration and says what to do next.
    /// Outside the initial phase the entry is dropped and nothing changes.
    pub fn start(&mut self, first: IterationComponent<M, S>) -> (r: Action)
        requires
            old(self)@.wf(),
            first.fits(old(self)@.control.n_terms),
        ensures
            final(self)@ == old(self)@.started(first),
            final(self)@.wf(),
            r == final(self)@.control.action(),
    {
        match self.engine.phase() {
            Phase::Init => {
                self.iterations.push(first);
                self.engine.start()
            },
            Phase::Solving | Phase::Converged | Phase::Exhausted => self.engine.action(),
        }
    }

    /// Records one more iteration with its entry and its residual test, and
    /// says what to do next. Once the solve has ended the entry is dropped
    /// and nothing changes.
    pub fn step(&mut self, entry: IterationComponent<M, S>, converged: bool) -> (r: Action)
        requires
            old(self)@.wf(),
            entry.fits(old(self)@.control.n_terms),
        ensures
            final(self)@ == old(self)@.stepped(entry, converged),
            final(self)@.wf(),
            r == final(self)@.control.action(),
    {
        match self.engine.phase() {
            Phase::Solving => {
                self.iterations.push(entry);
                self.engine.step(converged)
            },
            Phase::Init | Phase::Converged | Phase::Exhausted => self.engine.action(),
        }
    }

    /// Closes the record with the final solution. Returns `None` while the
    /// solve has not ended.
    pub fn finish(self, solution: M) -> (r: Option<Diagnostic<M, S>>)
        requires
            self@.wf(),
        ensures
            r.is_some() <==> self@.control.is_terminal(),
            r matches Some(d) ==> {
                &&& d.iterations@ == self@.iterations
                &&& d.solution == solution
                &&& d.n_iters == self@.control.n_iters
                &&& d.consistent(self@.control.n_terms, self@.control.max_iteration)
            },
    {
        if self.engine.is_terminal() {
            let n_iters: usize = self.engine.n_iters();
            Some(Diagnostic { iterations: self.iterations, solution, n_iters })
        } else {
            None
        }
    }

    /// Closes the record with the solution computed here: the projection, by
    /// `project`, of the decoding, by `decode`, of the last recorded
    /// parameter vector. Returns `Ok(None)` while the solve has not ended,
    /// and the error of `project` when the projection fails.
    ///
    /// When every recorded entry was derived from its parameter vector by
    /// the same two functions, the record is coherent.
    pub fn close<D: Fn(&M) -> M, P: Fn(&M) -> Result<M, SolveError>>(
        self,
        decode: D,
        project: P,
    ) -> (r: Result<Option<Diagnostic<M, S>>, SolveError>)
        requires
            self@.wf(),
            forall|x: M| call_requires(decode, (&x,)),
            forall|x: M| call_requires(project, (&x,)),
        ensures
            !self@.control.is_terminal() <==> r == Ok::<Option<Diagnostic<M, S>>, SolveError>(None),
            r matches Ok(Some(d)) ==> {
                &&& d.iterations@ == self@.iterations
                &&& d.n_iters == self@.control.n_iters
                &&& d.consistent(self@.control.n_terms, self@.control.max_iteration)
                &&& is_projected_solution(
                    d.solution,
                    self@.iterations.last().alpha_vec,
                    decode,
                    project,
                )
                &&& self@.derived_by(decode, project) ==> d.coherent(decode, project)
            },
            r matches Err(error) ==> projection_failed(
                error,
                self@.iterations.last().alpha_vec,
                decode,
                project,
            ),
    {
        if !self.engine.is_terminal() {
            return Ok(None);
        }
        let n_iters: usize = self.engine.n_iters();
        let last: usize = self.iterations.len() - 1;
        let alpha_mat = decode(&self.iterations[last].alpha_vec);
        proof {
            assert(self.iterations@[last as int] == self@.iterations.last());
            assert(call_ensures(decode, (&self@.iterations.last().alpha_vec,), alpha_mat));
        }
        match project(&alpha_mat) {
            Ok(solution) => Ok(Some(Diagnostic { iterations: self.iterations, solution, n_iters })),
            Err(error) => Err(error),
        }
    }
}

/// The auxiliary variables of every term: `beta[i]` is what `ratio` gives
/// for term `i` (its numerator over its denominator) and `mu[i]` what
/// `inverse` gives for it (one over its denominator).
pub fn solve_beta_mu<Term, S, R: Fn(&Term) -> S, I: Fn(&Term) -> S>(
    terms: &Vec<Term>,
    ratio: R,
    inverse: I,
) -> (r: (Vec<S>, Vec<S>))
    requires
        forall|i: int| 0 <= i < terms@.len() ==> call_requires(ratio, (&#[trigger] terms@[i],)),
        forall|i: int| 0 <= i < terms@.len() ==> call_requires(inverse, (&#[trigger] terms@[i],)),
    ensures
        r.0@.len() == terms@.len(),
        r.1@.len() == terms@.len(),
        forall|i: int|
            0 <= i < terms@.len() ==> call_ensures(ratio, (&terms@[i],), #[trigger] r.0@[i]),
        forall|i: int|
            0 <= i < terms@.len() ==> call_ensures(inverse, (&terms@[i],), #[trigger] r.1@[i]),
{
    let mut beta: Vec<S> = Vec::new();
    let mut mu: Vec<S> = Vec::new();
    let mut k: usize = 0;
    while k < terms.len()
        invariant
            k <= terms@.len(),
            beta@.len() == k,
            mu@.len() == k,
            forall|i: int| 0 <= i < terms@.len() ==> call_requires(ratio, (&#[trigger] terms@[i],)),
            forall|i: int|
                0 <= i < terms@.len() ==> call_requires(inverse, (&#[trigger] terms@[i],)),
            forall|i: int| 0 <= i < k ==> call_ensures(ratio, (&terms@[i],), #[trigger] beta@[i]),
            forall|i: int| 0 <= i < k ==> call_ensures(inverse, (&terms@[i],), #[trigger] mu@[i]),
        decreases terms@.len() - k,
    {
        beta.push(ratio(&terms[k]));
        mu.push(inverse(&terms[k]));
        k += 1;
    }
    (beta, mu)
}

/// Whether `m` is the term matrix of the three-row measurement matrix
/// `n`: square and symmetric, with one row and column per column of `n`,
/// where the cell of columns `i <= j` is what `cell` gave for column `i` and
/// column `j` of `n`, their scaled inner product.
pub open spec fn is_gram_matrix<T, G: Fn(T, T, T, T, T, T) -> T>(
    m: Grid<T>,
    n: Grid<T>,
    cell: G,
) -> bool {
    &&& m.has_shape(n.cols, n.cols)
    &&& m.is_symmetric()
    &&& forall|i: int, j: int|
        0 <= i <= j < n.cols ==> call_ensures(
            cell,
            (n.at(0, i), n.at(1, i), n.at(2, i), n.at(0, j), n.at(1, j), n.at(2, j)),
            #[trigger] m.at(i, j),
        )
}

/// The term matrix of a measurement matrix with three rows.
///
/// Only the cells on and above the diagonal are computed; the cells below
/// are copies, so the result equals its transpose whatever `cell` computes.
pub fn gram_matrix<T: Copy, G: Fn(T, T, T, T, T, T) -> T>(n: &Matrix<T>, cell: G) -> (m: Matrix<T>)
    requires
        n@.wf(),
        n@.rows == 3,
        n@.cols * n@.cols <= usize::MAX,
        forall|a0: T, a1: T, a2: T, b0: T, b1: T, b2: T|
            call_requires(cell, (a0, a1, a2, b0, b1, b2)),
    ensures
        is_gram_matrix(m@, n@, cell),
{
    let dim: usize = n.ncols();
    if dim == 0 {
        let cells: Vec<T> = Vec::new();
        let empty = Matrix::from_vec(0, 0, cells);
        assert(0 * 0 == 0);
        return empty.unwrap();
    }
    let mut m = Matrix::filled(dim, dim, n.get(0, 0));
    let mut i: usize = 0;
    while i < dim
        invariant
            n@.wf(),
            n@.rows == 3,
            n@.cols == dim,
            i <= dim,
            m@.has_shape(dim as nat, dim as nat),
            forall|a0: T, a1: T, a2: T, b0: T, b1: T, b2: T|
                call_requires(cell, (a0, a1, a2, b0, b1, b2)),
            forall|a: int, b: int|
                0 <= a <= b < dim && a < i ==> call_ensures(
                    cell,
                    (n@.at(0, a), n@.at(1, a), n@.at(2, a), n@.at(0, b), n@.at(1, b), n@.at(2, b)),
                    #[trigger] m@.at(a, b),
                ),
            forall|a: int, b: int| 0 <= a <= b < dim && a < i ==> m@.at(a, b) == #[trigger] m@.at(b, a),
        decreases dim - i,
    {
        let mut j: usize = i;
        while j < dim
            invariant
                n@.wf(),
                n@.rows == 3,
                n@.cols == dim,
                i < dim,
                i <= j <= dim,
                m@.has_shape(dim as nat, dim as nat),
                forall|a0: T, a1: T, a2: T, b0: T, b1: T, b2: T|
                    call_requires(cell, (a0, a1, a2, b0, b1, b2)),
                forall|a: int, b: int|
                    0 <= a <= b < dim && (a < i || (a == i && b < j)) ==> call_ensures(
                        cell,
                        (
                            n@.at(0, a),
                            n@.at(1, a),
                            n@.at(2, a),
                            n@.at(0, b),
                            n@.at(1, b),
                            n@.at(2, b),
                        ),
                        #[trigger] m@.at(a, b),
                    ),
                forall|a: int, b: int|
                    0 <= a <= b < dim && (a < i || (a == i && b < j)) ==> m@.at(a, b)
                        == #[trigger] m@.at(b, a),
            decreases dim - j,
        {
            let value = cell(
                n.get(0, i),
                n.get(1, i),
                n.get(2, i),
                n.get(0, j),
                n.get(1, j),
                n.get(2, j),
            );
            m.set(i, j, value);
            m.set(j, i, value);
            j += 1;
        }
        i += 1;
    }
    proof {
        assert forall|a: int, b: int| 0 <= a < dim && 0 <= b < dim implies #[trigger] m@.at(a, b)
            == m@.at(b, a) by {
            if a <= b {
                assert(m@.at(a, b) == m@.at(b, a));
            } else {
                assert(m@.at(b, a) == m@.at(a, b));
            }
        }
    }
    m
}

/// The right-hand side of the linear step: zero everywhere but `one` in the last entry.
pub fn unit_rhs<T: Copy>(dim: usize, zero: T, one: T) -> (e: Vec<T>)
    requires
        dim >= 1,
    ensures
        e@.len() == dim,
        e@[dim - 1] == one,
        forall|k: int| 0 <= k < dim - 1 ==> e@[k] == zero,
{
    let mut e: Vec<T> = Vec::with_capacity(dim);
    let mut k: usize = 0;
    while k < dim - 1
        invariant
            dim >= 1,
            k <= dim - 1,
            e@.len() == k,
            forall|p: int| 0 <= p < k ==> e@[p] == zero,
        decreases dim - 1 - k,
    {
        e.push(zero);
        k += 1;
    }
    e.push(one);
    e
}

/// Turns the solution `y` of the linear step into the next parameter
/// vector by rescaling it with its last entry, the pivot, so that the last
/// entry of the result stands for one.
///
/// `pivot_is_zero` tests the pivot and `rescale(pivot, value)` divides
/// `value` by it. A zero pivot is a degenerate system.
pub fn normalize_by_pivot<T: Copy, Z: Fn(T) -> bool, D: Fn(T, T) -> T>(
    y: &Vec<T>,
    pivot_is_zero: Z,
    rescale: D,
) -> (r: Result<Matrix<T>, SolveError>)
    requires
        y@.len() >= 1,
        forall|a: T| call_requires(pivot_is_zero, (a,)),
        forall|a: T, b: T| call_requires(rescale, (a, b)),
    ensures
        match r {
            Ok(x) => {
                &&& call_ensures(pivot_is_zero, (y@[y@.len() - 1],), false)
                &&& x@.has_shape(y@.len(), 1)
                &&& forall|k: int|
                    0 <= k < y@.len() ==> call_ensures(
                        rescale,
                        (y@[y@.len() - 1], y@[k]),
                        #[trigger] x@.cells[k],
                    )
            },
            Err(e) => {
                &&& e == SolveError::DegenerateSystem
                &&& call_ensures(pivot_is_zero, (y@[y@.len() - 1],), true)
            },
        },
{
    let n: usize = y.len();
    let pivot = y[n - 1];
    if pivot_is_zero(pivot) {
        return Err(SolveError::DegenerateSystem);
    }
    let mut data: Vec<T> = Vec::with_capacity(n);
    let mut k: usize = 0;
    while k < n
        invariant
            n == y@.len(),
            n >= 1,
            k <= n,
            pivot == y@[n - 1],
            data@.len() == k,
            forall|a: T, b: T| call_requires(rescale, (a, b)),
            forall|p: int| 0 <= p < k ==> call_ensures(rescale, (pivot, y@[p]), #[trigger] data@[p]),
        decreases n - k,
    {
        data.push(rescale(pivot, y[k]));
        k += 1;
    }
    let x = Matrix::from_vec(n, 1, data);
    Ok(x.unwrap())
}

} // verus!
