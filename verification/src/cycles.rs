//! Circular includes: that a run remembers every file it has loaded, each
//! once, and ends with `CircularInclude` when an entry of `includes` leads
//! to one of them again.

use vstd::prelude::*;
use crate::discovery::{
    seen_with,
    DiscoveryOptionsView,
    DiscoveryView,
    FrameView,
    ProgressView,
    ReplyView,
    Stage,
};
use crate::error::ErrorView;
use crate::world::{run, World};

verus! {

/// Whether the files of all declarations of a list are among those seen.
pub open spec fn all_seen(seen: Seq<Seq<char>>, frames: Seq<FrameView>) -> bool {
    forall|i: int| 0 <= i < frames.len() ==> seen.contains((#[trigger] frames[i]).key)
}

/// Whether the run is waiting for the declaration of a file that counts as
/// loaded.
pub open spec fn loads_counted_file(stage: Stage) -> bool {
    stage == Stage::SuppliedLoad || stage == Stage::StartLoad || stage == Stage::WalkLoad || stage
        == Stage::IncludedLoad
}

/// Whether the run remembers the files it has loaded: no file is among
/// those seen twice; the file of every declaration that the run holds, be
/// it a root, found in the tree or open for the expansion of its includes,
/// the outermost included, is among them; and so is the file whose
/// declaration is awaited.
pub open spec fn remembers(state: DiscoveryView) -> bool {
    &&& state.seen.no_duplicates()
    &&& all_seen(state.seen, state.roots)
    &&& all_seen(state.seen, state.found)
    &&& all_seen(state.seen, state.stack)
    &&& loads_counted_file(state.stage) ==> state.seen.contains(state.key)
}

/// Seeing one more file forgets none, and sees none twice.
pub proof fn lemma_seen_with_keeps(seen: Seq<Seq<char>>, key: Seq<char>)
    requires
        seen.no_duplicates(),
    ensures
        seen_with(seen, key).no_duplicates(),
        seen_with(seen, key).contains(key),
        forall|p: Seq<char>| seen.contains(p) ==> seen_with(seen, key).contains(p),
{
    if !seen.contains(key) {
        let more = seen.push(key);
        assert(more[seen.len() as int] == key);
        assert forall|p: Seq<char>| seen.contains(p) implies more.contains(p) by {
            let i = choose|i: int| 0 <= i < seen.len() && seen[i] == p;
            assert(more[i] == p);
        }
        assert forall|i: int, j: int| 0 <= i < more.len() && 0 <= j < more.len() && i
            != j implies more[i] != more[j] by {
            if i < seen.len() && j < seen.len() {
            } else if i < seen.len() {
                assert(seen.contains(seen[i]));
            } else if j < seen.len() {
                assert(seen.contains(seen[j]));
            }
        }
    }
}

/// What is among the files seen stays among them when one more is seen.
pub proof fn lemma_all_seen_lasts(seen: Seq<Seq<char>>, key: Seq<char>, frames: Seq<FrameView>)
    requires
        seen.no_duplicates(),
        all_seen(seen, frames),
    ensures
        all_seen(seen_with(seen, key), frames),
{
    lemma_seen_with_keeps(seen, key);
    assert forall|i: int| 0 <= i < frames.len() implies seen_with(seen, key).contains(
        (#[trigger] frames[i]).key,
    ) by {
        assert(seen.contains(frames[i].key));
    }
}

/// Expanding includes keeps what the run remembers.
pub proof fn lemma_expansion_remembers(state: DiscoveryView)
    requires
        state.seen.no_duplicates(),
        all_seen(state.seen, state.roots),
        all_seen(state.seen, state.found),
        all_seen(state.seen, state.stack),
    ensures
        remembers(state.resolve_all_includes().0),
    decreases state.roots_left(), state.stack.len(),
{
    if state.stack.len() > 0 {
        let top = state.stack.last();
        if top.next < top.spec.includes.len() {
            let raised = state.stack.drop_last().push(FrameView { next: top.next + 1, ..top });
            assert forall|i: int| 0 <= i < raised.len() implies state.seen.contains(
                (#[trigger] raised[i]).key,
            ) by {
                assert(state.seen.contains(state.stack[i].key));
            }
        } else {
            let rest = state.stack.drop_last();
            assert forall|i: int| 0 <= i < rest.len() implies state.seen.contains(
                (#[trigger] rest[i]).key,
            ) by {
                assert(state.seen.contains(state.stack[i].key));
            }
            lemma_expansion_remembers(
                DiscoveryView { stack: rest, output: state.output.push(top.spec), ..state },
            );
        }
    } else if state.cursor < state.roots.len() {
        let opened = seq![FrameView { next: 0, ..state.roots[state.cursor as int] }];
        assert forall|i: int| 0 <= i < opened.len() implies state.seen.contains(
            (#[trigger] opened[i]).key,
        ) by {
            assert(state.seen.contains(state.roots[state.cursor as int].key));
        }
        lemma_expansion_remembers(
            DiscoveryView { stack: opened, cursor: state.cursor + 1, ..state },
        );
    } else {
    }
}

/// Going up one directory, or leaving the tree, keeps what the run remembers.
pub proof fn lemma_climb_remembers(state: DiscoveryView)
    requires
        state.seen.no_duplicates(),
        all_seen(state.seen, state.roots),
        all_seen(state.seen, state.found),
        all_seen(state.seen, state.stack),
    ensures
        remembers(state.climb().0),
        remembers(state.leave_tree().0),
{
    if state.found.len() > 0 {
        let joined = state.roots + state.found;
        assert forall|i: int| 0 <= i < joined.len() implies state.seen.contains(
            (#[trigger] joined[i]).key,
        ) by {
            if i < state.roots.len() {
                assert(state.seen.contains(state.roots[i].key));
            } else {
                assert(state.seen.contains(state.found[i - state.roots.len()].key));
            }
        }
        lemma_expansion_remembers(
            DiscoveryView { roots: joined, found: Seq::empty(), ..state },
        );
    }
}

/// Every answered request keeps what the run remembers.
pub proof fn lemma_step_remembers(state: DiscoveryView, reply: ReplyView)
    requires
        remembers(state),
    ensures
        remembers(state.next(reply).0),
{
    if state.expects(reply) {
        match reply {
            ReplyView::Canonical(answer) => {
                if state.stage == Stage::StartCanonical || state.stage == Stage::WalkCanonical {
                    let key = crate::discovery::counted(state.pending, answer);
                    lemma_seen_with_keeps(state.seen, key);
                    lemma_all_seen_lasts(state.seen, key, state.roots);
                    lemma_all_seen_lasts(state.seen, key, state.found);
                    lemma_all_seen_lasts(state.seen, key, state.stack);
                } else if let Ok(canonical) = answer {
                    if !state.seen.contains(canonical) {
                        lemma_seen_with_keeps(state.seen, canonical);
                        lemma_all_seen_lasts(state.seen, canonical, state.roots);
                        lemma_all_seen_lasts(state.seen, canonical, state.found);
                        lemma_all_seen_lasts(state.seen, canonical, state.stack);
                    }
                }
            },
            ReplyView::IsFile(present) => {
                if state.stage == Stage::StartProbe {
                    if !present && !state.no_inherit {
                        lemma_climb_remembers(DiscoveryView { current: state.start, ..state });
                    }
                } else if state.stage == Stage::WalkProbe {
                    if !present {
                        lemma_climb_remembers(state);
                    }
                }
            },
            ReplyView::Loaded(Ok(raw)) => {
                let spec = raw.loaded_from(state.pending);
                let frame = FrameView { spec, key: state.key, next: 0 };
                if state.stage == Stage::SuppliedLoad {
                    let roots = state.roots.push(frame);
                    assert forall|i: int| 0 <= i < roots.len() implies state.seen.contains(
                        (#[trigger] roots[i]).key,
                    ) by {
                        if i < state.roots.len() {
                            assert(state.seen.contains(state.roots[i].key));
                        }
                    }
                } else if state.stage == Stage::StartLoad || state.stage == Stage::WalkLoad {
                    let found = seq![frame] + state.found;
                    assert forall|i: int| 0 <= i < found.len() implies state.seen.contains(
                        (#[trigger] found[i]).key,
                    ) by {
                        if i > 0 {
                            assert(state.seen.contains(state.found[i - 1].key));
                        }
                    }
                    if state.stage == Stage::StartLoad {
                        lemma_climb_remembers(
                            DiscoveryView { found, current: state.start, ..state },
                        );
                    } else {
                        lemma_climb_remembers(DiscoveryView { found, ..state });
                    }
                } else if state.stage == Stage::IncludedLoad {
                    let grown = state.stack.push(frame);
                    assert forall|i: int| 0 <= i < grown.len() implies state.seen.contains(
                        (#[trigger] grown[i]).key,
                    ) by {
                        if i < state.stack.len() {
                            assert(state.seen.contains(state.stack[i].key));
                        }
                    }
                    lemma_expansion_remembers(DiscoveryView { stack: grown, ..state });
                } else {
                }
            },
            ReplyView::Loaded(Err(_)) => {},
        }
    }
}

/// A run remembers the files it has loaded when it starts.
pub proof fn lemma_begin_remembers(
    start: Seq<char>,
    options: DiscoveryOptionsView,
    home: Option<Seq<char>>,
)
    ensures
        remembers(DiscoveryView::begin(start, options, home).0),
{
}

/// Playing a run on keeps what it remembers.
pub proof fn lemma_remembering_lasts(
    world: World,
    state: DiscoveryView,
    progress: ProgressView,
    steps: nat,
)
    requires
        remembers(state),
    ensures
        remembers(run(world, state, progress, steps).0),
    decreases steps,
{
    if steps > 0 {
        if let ProgressView::Ask(request) = progress {
            lemma_step_remembers(state, world.answer(request));
            let after = state.next(world.answer(request));
            lemma_remembering_lasts(world, after.0, after.1, (steps - 1) as nat);
        }
    }
}

/// A run remembers the files it has loaded, each once, from its start and
/// at every point after it.
pub proof fn lemma_run_remembers(
    world: World,
    start: Seq<char>,
    options: DiscoveryOptionsView,
    home: Option<Seq<char>>,
    steps: nat,
)
    ensures
        remembers(
            run(
                world,
                DiscoveryView::begin(start, options, home).0,
                DiscoveryView::begin(start, options, home).1,
                steps,
            ).0,
        ),
{
    let first = DiscoveryView::begin(start, options, home);
    lemma_remembering_lasts(world, first.0, first.1, steps);
}

/// Circular includes are caught, whatever the length of the cycle and
/// wherever it starts: when an entry of `includes` leads back to the file of
/// a declaration whose own includes are being expanded at that moment, be it
/// the innermost, the outermost, which may be a file of the tree, or any in
/// between, the run ends with `CircularInclude` for that file.
pub proof fn lemma_cycle_is_caught(state: DiscoveryView, canonical: Seq<char>, depth: int)
    requires
        remembers(state),
        state.stage == Stage::IncludedCanonical,
        0 <= depth < state.stack.len(),
        state.stack[depth].key == canonical,
    ensures
        state.next(ReplyView::Canonical(Ok(canonical))).1 == ProgressView::Done(
            Err(ErrorView::CircularInclude(canonical)),
        ),
{
    assert(state.seen.contains(state.stack[depth].key));
}

/// An entry that leads to the file of any declaration gathered in this run,
/// supplied or found in the tree, is a circular include.
pub proof fn lemma_gathered_file_is_circular(state: DiscoveryView, canonical: Seq<char>, at: int)
    requires
        remembers(state),
        state.stage == Stage::IncludedCanonical,
        0 <= at < state.roots.len(),
        state.roots[at].key == canonical,
    ensures
        state.next(ReplyView::Canonical(Ok(canonical))).1 == ProgressView::Done(
            Err(ErrorView::CircularInclude(canonical)),
        ),
{
    assert(state.seen.contains(state.roots[at].key));
}

/// No file is loaded twice through includes in one run: a canonical path
/// that the run has seen ends it with `CircularInclude`, and one that it has
/// not seen is seen from now on.
pub proof fn lemma_seen_once(state: DiscoveryView, canonical: Seq<char>)
    requires
        state.stage == Stage::SuppliedCanonical || state.stage == Stage::IncludedCanonical,
    ensures
        state.seen.contains(canonical) ==> state.next(ReplyView::Canonical(Ok(canonical))).1
            == ProgressView::Done(Err(ErrorView::CircularInclude(canonical))),
        !state.seen.contains(canonical) ==> state.next(
            ReplyView::Canonical(Ok(canonical)),
        ).0.seen == state.seen.push(canonical),
{
}

} // verus!
