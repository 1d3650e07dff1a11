//! Discovery runs against a fixed file system.
//!
//! A [`World`] says, for every path, what the file system answers. A
//! [`run`] is the discovery conversation played against it. What discovery
//! promises about its result is stated and proved here over such runs.

use vstd::prelude::*;
use crate::declaration::EnvSpecView;
use crate::discovery::{
    counted,
    request_for,
    DiscoveryOptionsView,
    DiscoveryView,
    FrameView,
    LoadFailureView,
    ProgressView,
    ReplyView,
    RequestView,
    Stage,
};
use crate::path::path_join;
use crate::{SPENV_FILENAME, SPENV_LOCAL_FILENAME};

verus! {

/// A file system that does not change: what it answers for every path.
pub struct World {
    /// The canonical form of a path, or why it has none.
    pub canonical: spec_fn(Seq<char>) -> Result<Seq<char>, Seq<char>>,
    /// Whether a path is a regular file.
    pub is_file: spec_fn(Seq<char>) -> bool,
    /// The declaration in the file at a path, or why there is none.
    pub load: spec_fn(Seq<char>) -> Result<EnvSpecView, LoadFailureView>,
}

impl World {
    /// The reply of this file system to `request`.
    pub open spec fn answer(self, request: RequestView) -> ReplyView {
        match request {
            RequestView::Canonicalize { path } => ReplyView::Canonical((self.canonical)(path)),
            RequestView::IsFile { path } => ReplyView::IsFile((self.is_file)(path)),
            RequestView::Load { path } => ReplyView::Loaded((self.load)(path)),
        }
    }

    /// The declaration at `path` as discovery records it, where there is one.
    pub open spec fn declaration(self, path: Seq<char>) -> Option<EnvSpecView> {
        match (self.load)(path) {
            Ok(raw) => Some(raw.loaded_from(path)),
            Err(_) => None,
        }
    }

    /// The path by which the file at `path` counts as loaded when it is
    /// found in the tree: its canonical path, or the path itself where it
    /// has none.
    pub open spec fn key(self, path: Seq<char>) -> Seq<char> {
        counted(path, (self.canonical)(path))
    }

    /// Whether the directory `dir` has a declaration file.
    pub open spec fn declares(self, dir: Seq<char>) -> bool {
        (self.is_file)(path_join(dir, SPENV_FILENAME@))
    }
}

/// A list of declarations together with the files seen when it was complete.
pub struct Gathered {
    pub specs: Seq<EnvSpecView>,
    pub seen: Seq<Seq<char>>,
}

/// Where a run stands after `steps` answered requests, or at its end where
/// that comes earlier.
pub open spec fn run(world: World, state: DiscoveryView, progress: ProgressView, steps: nat) -> (
    DiscoveryView,
    ProgressView,
)
    decreases steps,
{
    match progress {
        ProgressView::Done(_) => (state, progress),
        ProgressView::Ask(request) => if steps == 0 {
            (state, progress)
        } else {
            let after = state.next(world.answer(request));
            run(world, after.0, after.1, (steps - 1) as nat)
        },
    }
}

/// One answered request of a run.
pub proof fn lemma_run_step(
    world: World,
    state: DiscoveryView,
    request: RequestView,
    steps: nat,
)
    ensures
        run(world, state, ProgressView::Ask(request), steps + 1) == run(
            world,
            state.next(world.answer(request)).0,
            state.next(world.answer(request)).1,
            steps,
        ),
{
}

/// A run that is over stays where it is.
pub proof fn lemma_run_done(world: World, state: DiscoveryView, progress: ProgressView, steps: nat)
    requires
        progress is Done || steps == 0,
    ensures
        run(world, state, progress, steps) == (state, progress),
{
}

/// Playing a run `first` requests and `more` requests after them is
/// playing it `first + more` requests.
pub proof fn lemma_run_split(
    world: World,
    state: DiscoveryView,
    progress: ProgressView,
    first: nat,
    more: nat,
)
    ensures
        run(world, state, progress, first + more) == run(
            world,
            run(world, state, progress, first).0,
            run(world, state, progress, first).1,
            more,
        ),
    decreases first,
{
    match progress {
        ProgressView::Done(_) => {
            lemma_run_done(world, state, progress, first + more);
            lemma_run_done(world, state, progress, first);
            lemma_run_done(world, state, progress, more);
        },
        ProgressView::Ask(request) => {
            if first > 0 {
                let after = state.next(world.answer(request));
                lemma_run_split(world, after.0, after.1, (first - 1) as nat, more);
                assert(run(world, state, progress, first + more) == run(
                    world,
                    after.0,
                    after.1,
                    (first + more - 1) as nat,
                ));
            }
        },
    }
}

/// The path of the local override of a run's starting directory.
pub open spec fn local_override(start: Seq<char>) -> Seq<char> {
    path_join(start, SPENV_LOCAL_FILENAME@)
}

/// Whether state and progress belong together: a pending request is the one
/// of the state's stage and path, and a run that waits for the local
/// override waits for that of its starting directory.
pub open spec fn in_step(state: DiscoveryView, progress: ProgressView) -> bool {
    &&& progress matches ProgressView::Ask(request) ==> {
        &&& state.stage != Stage::Finished
        &&& request == request_for(state.stage, state.pending)
        &&& (state.stage == Stage::LocalProbe || state.stage == Stage::LocalLoad)
            ==> state.pending == local_override(state.start)
    }
}

/// Whether two states belong to runs with the same inputs.
pub open spec fn same_inputs(a: DiscoveryView, b: DiscoveryView) -> bool {
    &&& a.start == b.start
    &&& a.home == b.home
    &&& a.no_inherit == b.no_inherit
    &&& a.force_inherit == b.force_inherit
    &&& a.supplied == b.supplied
}

/// Expanding includes keeps the inputs of the run, never ends the run with
/// a result, and leaves state and progress in step.
pub proof fn lemma_expansion_in_step(state: DiscoveryView)
    ensures
        same_inputs(state.resolve_all_includes().0, state),
        in_step(state.resolve_all_includes().0, state.resolve_all_includes().1),
        !(state.resolve_all_includes().1 matches ProgressView::Done(Ok(_))),
    decreases state.roots_left(), state.stack.len(),
{
    if state.stack.len() > 0 {
        let top = state.stack.last();
        if top.next < top.spec.includes.len() {
        } else {
            lemma_expansion_in_step(
                DiscoveryView {
                    stack: state.stack.drop_last(),
                    output: state.output.push(top.spec),
                    ..state
                },
            );
        }
    } else if state.cursor < state.roots.len() {
        lemma_expansion_in_step(
            DiscoveryView {
                stack: seq![FrameView { next: 0, ..state.roots[state.cursor as int] }],
                cursor: state.cursor + 1,
                ..state
            },
        );
    } else {
    }
}

/// The local override that a result ends with: the declaration at `path`.
pub open spec fn ends_with_override(
    world: World,
    path: Seq<char>,
    progress: ProgressView,
) -> bool {
    progress matches ProgressView::Done(Ok(specs)) ==> specs.len() > 0 && Some(specs.last())
        == world.declaration(path)
}

/// One answered request keeps the inputs of the run and keeps state and
/// progress in step; and where the starting directory has a local override,
/// a result that comes out ends with it.
pub proof fn lemma_step_in_step(world: World, state: DiscoveryView, request: RequestView)
    requires
        in_step(state, ProgressView::Ask(request)),
    ensures
        same_inputs(state.next(world.answer(request)).0, state),
        in_step(state.next(world.answer(request)).0, state.next(world.answer(request)).1),
        (world.is_file)(local_override(state.start)) ==> ends_with_override(
            world,
            local_override(state.start),
            state.next(world.answer(request)).1,
        ),
{
    let reply = world.answer(request);
    assert(state.expects(reply));
    match reply {
        ReplyView::Canonical(answer) => {},
        ReplyView::IsFile(present) => {
            if state.stage == Stage::StartProbe {
                if !present && !state.no_inherit {
                    lemma_climb_in_step(DiscoveryView { current: state.start, ..state });
                }
            } else if state.stage == Stage::WalkProbe {
                if !present {
                    lemma_climb_in_step(state);
                }
            }
        },
        ReplyView::Loaded(Ok(raw)) => {
            let spec = raw.loaded_from(state.pending);
            let frame = FrameView { spec, key: state.key, next: 0 };
            if state.stage == Stage::SuppliedLoad {
            } else if state.stage == Stage::StartLoad {
                lemma_climb_in_step(
                    DiscoveryView {
                        found: seq![frame] + state.found,
                        current: state.start,
                        ..state
                    },
                );
            } else if state.stage == Stage::WalkLoad {
                lemma_climb_in_step(DiscoveryView { found: seq![frame] + state.found, ..state });
            } else if state.stage == Stage::IncludedLoad {
                lemma_expansion_in_step(
                    DiscoveryView {
                        stack: state.stack.push(frame),
                        ..state
                    },
                );
            } else {
            }
        },
        ReplyView::Loaded(Err(failure)) => {},
    }
}

/// Going up one directory, or leaving the tree, keeps the inputs of the
/// run, never ends the run with a result, and leaves state and progress in
/// step.
pub proof fn lemma_climb_in_step(state: DiscoveryView)
    ensures
        same_inputs(state.climb().0, state),
        in_step(state.climb().0, state.climb().1),
        !(state.climb().1 matches ProgressView::Done(Ok(_))),
        same_inputs(state.leave_tree().0, state),
        in_step(state.leave_tree().0, state.leave_tree().1),
        !(state.leave_tree().1 matches ProgressView::Done(Ok(_))),
{
    if state.found.len() > 0 {
        lemma_expansion_in_step(
            DiscoveryView { roots: state.roots + state.found, found: Seq::empty(), ..state },
        );
    }
}

/// Every run ends with the local override of its starting directory where
/// that directory has one: however many declarations were supplied, found in
/// the tree or included, a result has the local override as its last element.
pub proof fn lemma_local_override_is_last(
    world: World,
    state: DiscoveryView,
    progress: ProgressView,
    steps: nat,
)
    requires
        in_step(state, progress),
        progress is Ask,
        (world.is_file)(local_override(state.start)),
    ensures
        ends_with_override(
            world,
            local_override(state.start),
            run(world, state, progress, steps).1,
        ),
    decreases steps,
{
    if steps > 0 {
        let request = progress->Ask_0;
        lemma_step_in_step(world, state, request);
        let after = state.next(world.answer(request));
        assert(run(world, state, progress, steps) == run(
            world,
            after.0,
            after.1,
            (steps - 1) as nat,
        ));
        assert(after.0.start == state.start);
        if after.1 is Ask {
            lemma_local_override_is_last(world, after.0, after.1, (steps - 1) as nat);
        } else {
            assert(run(world, after.0, after.1, (steps - 1) as nat) == after);
        }
    } else {
        assert(run(world, state, progress, steps).1 == progress);
    }
}

/// A run starts with state and progress in step, and never with a result.
pub proof fn lemma_begin_in_step(
    start: Seq<char>,
    options: DiscoveryOptionsView,
    home: Option<Seq<char>>,
)
    ensures
        in_step(
            DiscoveryView::begin(start, options, home).0,
            DiscoveryView::begin(start, options, home).1,
        ),
        DiscoveryView::begin(start, options, home).0.start == start,
        !(DiscoveryView::begin(start, options, home).1 matches ProgressView::Done(Ok(_))),
{
}

/// The local override is last: a discovery run from `start` whose file
/// system has a local override there never returns a list that does not end
/// with the declaration of that file.
pub proof fn lemma_discovery_ends_with_local_override(
    world: World,
    start: Seq<char>,
    options: DiscoveryOptionsView,
    home: Option<Seq<char>>,
    steps: nat,
)
    requires
        (world.is_file)(local_override(start)),
    ensures
        ends_with_override(
            world,
            local_override(start),
            run(
                world,
                DiscoveryView::begin(start, options, home).0,
                DiscoveryView::begin(start, options, home).1,
                steps,
            ).1,
        ),
{
    lemma_begin_in_step(start, options, home);
    let first = DiscoveryView::begin(start, options, home);
    if first.1 is Ask {
        lemma_local_override_is_last(world, first.0, first.1, steps);
    }
}

} // verus!
