//! The runtime's own state: its snapshot role, and the tables and queues it
//! owns between calls into the engine.
use crate::bridge::TransportBuffer;
use crate::loader::ModuleLoader;
use crate::error::CoreError;
use crate::modules::{status_step, ModuleId, ModuleInfo, ModuleStatus, Modules, NameTarget};
use crate::ops::{OpTable, CATALOG_OP_NAME};
use crate::rejections::{without_promise, DynImportQueue, PendingRejections, PromiseId};
use crate::resources::{ResourceId, ResourceTable};
use vstd::prelude::*;

verus! {

/// Heap sizes the engine is started with.
pub struct HeapLimits {
    pub initial: usize,
    pub max: usize,
}

/// What a runtime is built for, for its whole life.
#[derive(PartialEq, Eq, Structural, Clone, Copy, Debug)]
pub enum SnapshotRole {
    /// Starts fresh, to bake a startup snapshot.
    Producer,
    /// Starts from a snapshot, or fresh, and never produces one.
    Consumer,
}

/// How a runtime is to be built.
pub struct RuntimeOptions {
    /// Build a snapshot producer.
    pub will_snapshot: bool,
    /// A startup snapshot to restore from.
    pub startup_snapshot: Option<Vec<u8>>,
    pub heap_limits: Option<HeapLimits>,
}

/// The role that `options` call for. A producer that also restores a
/// snapshot is a wiring error, and is left out.
pub fn snapshot_role(options: &RuntimeOptions) -> (r: SnapshotRole)
    requires
        !(options.will_snapshot && options.startup_snapshot is Some),
    ensures
        r == if options.will_snapshot {
            SnapshotRole::Producer
        } else {
            SnapshotRole::Consumer
        },
{
    if options.will_snapshot {
        SnapshotRole::Producer
    } else {
        SnapshotRole::Consumer
    }
}

/// What to do with an exception caught while the host may be stopping the
/// script.
pub struct TerminationPlan {
    /// Lift the stop so that an error object can be built.
    pub cancel_termination: bool,
    /// Build an "execution terminated" error in place of the empty exception.
    pub synthesize_error: bool,
    /// Put the stop back before returning, so that the runtime stays stoppable.
    pub rearm_termination: bool,
}

/// The plan for an exception caught with the stop flag `terminating`, where
/// `exception_is_empty` tells whether the engine gave no exception value.
pub fn termination_plan(terminating: bool, exception_is_empty: bool) -> (r: TerminationPlan)
    ensures
        r.cancel_termination == terminating,
        r.synthesize_error == (terminating && exception_is_empty),
        r.rearm_termination == terminating,
{
    TerminationPlan {
        cancel_termination: terminating,
        synthesize_error: terminating && exception_is_empty,
        rearm_termination: terminating,
    }
}

/// State that one runtime owns besides the engine itself: `Res` is the type
/// of its resources, `H` of its module handles, `R` of the promise resolvers
/// of dynamic imports, `E` of the values of unhandled rejections.
pub struct RuntimeState<Res, H, R, E> {
    pub role: SnapshotRole,
    /// Whether the global context is still held.
    pub has_context: bool,
    pub ops: OpTable,
    pub resources: ResourceTable<Res>,
    pub modules: Modules<H>,
    pub loader: ModuleLoader,
    pub pending_rejections: PendingRejections<E>,
    pub dyn_imports: DynImportQueue<R>,
    pub bridge: TransportBuffer,
}

impl<Res, H, R, E> RuntimeState<Res, H, R, E> {
    pub open spec fn wf(&self) -> bool {
        &&& self.ops.wf()
        &&& self.resources.wf()
        &&& self.modules.wf()
        &&& self.pending_rejections.wf()
        &&& self.bridge.wf()
    }

    /// Fresh state for a runtime built from `options`, whose module search
    /// paths are `search_paths`.
    pub fn new(options: &RuntimeOptions, search_paths: Vec<String>) -> (r: Self)
        requires
            !(options.will_snapshot && options.startup_snapshot is Some),
        ensures
            r.wf(),
            r.role == if options.will_snapshot {
                SnapshotRole::Producer
            } else {
                SnapshotRole::Consumer
            },
            r.has_context,
            r.ops.op_names() == seq![CATALOG_OP_NAME@],
            r.resources.contents() == Map::<ResourceId, (Seq<char>, Res)>::empty(),
            r.resources.next_id() == 0,
            r.modules.records() == Map::<ModuleId, ModuleInfo<H>>::empty(),
            r.modules.names() == Map::<Seq<char>, NameTarget>::empty(),
            r.loader.templates() == search_paths@.map_values(|x: String| x@),
            r.loader.known_files() == Set::<Seq<char>>::empty(),
            r.pending_rejections@ == Seq::<(PromiseId, E)>::empty(),
            r.dyn_imports@ == Seq::<crate::rejections::DynImport<R>>::empty(),
            r.bridge.capacity() is None,
    {
        RuntimeState {
            role: snapshot_role(options),
            has_context: true,
            ops: OpTable::new(),
            resources: ResourceTable::new(),
            modules: Modules::new(),
            loader: ModuleLoader::new(search_paths),
            pending_rejections: PendingRejections::new(),
            dyn_imports: DynImportQueue::new(),
            bridge: TransportBuffer::new(),
        }
    }

    /// Gets a producer ready to be serialized: the global context and the
    /// module graph are let go, as neither survives in a snapshot. Only a
    /// producer takes snapshots.
    pub fn prepare_snapshot(&mut self)
        requires
            old(self).wf(),
            old(self).role == SnapshotRole::Producer,
        ensures
            final(self).wf(),
            !final(self).has_context,
            final(self).role == old(self).role,
            final(self).modules.records() == Map::<ModuleId, ModuleInfo<H>>::empty(),
            final(self).modules.names() == Map::<Seq<char>, NameTarget>::empty(),
            final(self).ops == old(self).ops,
            final(self).resources == old(self).resources,
    {
        self.has_context = false;
        self.modules = Modules::new();
    }

    /// The end of a dispatch turn, once the dynamic imports were drained: the
    /// oldest unhandled rejection, if any is left, becomes the turn's error.
    pub fn end_turn(&mut self) -> (r: Result<(), (PromiseId, E)>)
        requires
            old(self).wf(),
        ensures
            final(self).wf(),
            old(self).pending_rejections@.len() == 0 ==> r is Ok && final(self).pending_rejections@ == old(
                self,
            ).pending_rejections@,
            old(self).pending_rejections@.len() > 0 ==> r == Err::<(), (PromiseId, E)>(
                old(self).pending_rejections@[0],
            ) && final(self).pending_rejections@ == old(self).pending_rejections@.drop_first(),
    {
        match self.pending_rejections.take_oldest() {
            Some(entry) => Err(entry),
            None => Ok(()),
        }
    }
}

/// The status an evaluation that ended with `outcome` moves a module to.
pub open spec fn evaluated_status(outcome: Result<(), CoreError>) -> ModuleStatus {
    if outcome is Ok {
        ModuleStatus::Evaluated
    } else {
        ModuleStatus::Errored
    }
}

/// Ends the evaluation of module `id` by a load: the promise the evaluation
/// returned (if any) leaves the unhandled-rejection set, since its failure is
/// the load's own error; the module moves to evaluated or errored; and the
/// load gets `id` back, or the evaluation's error.
pub fn evaluation_finished<Res, H, R, E>(
    state: &mut RuntimeState<Res, H, R, E>,
    id: ModuleId,
    promise: Option<PromiseId>,
    outcome: Result<(), CoreError>,
) -> (r: Result<ModuleId, CoreError>)
    requires
        old(state).wf(),
    ensures
        final(state).wf(),
        final(state).pending_rejections@ == match promise {
            Some(p) => without_promise(old(state).pending_rejections@, p),
            None => old(state).pending_rejections@,
        },
        (r is Ok) == (outcome is Ok),
        r is Ok ==> r == Ok::<ModuleId, CoreError>(id),
        outcome matches Err(e) ==> r == Err::<ModuleId, CoreError>(e),
        final(state).modules.names() == old(state).modules.names(),
        final(state).modules.records().dom() == old(state).modules.records().dom(),
        ({
            let moved = old(state).modules.records().contains_key(id) && status_step(
                old(state).modules.records()[id].status,
                evaluated_status(outcome),
            );
            &&& moved ==> final(state).modules.records() == old(state).modules.records().insert(
                id,
                ModuleInfo { status: evaluated_status(outcome), ..old(state).modules.records()[id] },
            )
            &&& !moved ==> final(state).modules.records() == old(state).modules.records()
        }),
        final(state).ops == old(state).ops,
        final(state).resources == old(state).resources,
        final(state).role == old(state).role,
        final(state).has_context == old(state).has_context,
{
    match promise {
        Some(p) => state.pending_rejections.handled(p),
        None => {},
    }
    let to = match &outcome {
        Ok(()) => ModuleStatus::Evaluated,
        Err(_) => ModuleStatus::Errored,
    };
    let _ = state.modules.advance_status(id, to);
    match outcome {
        Ok(()) => Ok(id),
        Err(e) => Err(e),
    }
}

} // verus!
