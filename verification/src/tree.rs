//! The declarations of the directory tree: which of them a run finds, in
//! which order, and that the discovery conversation finds exactly those.

use vstd::prelude::*;
use crate::declaration::EnvSpecView;
use crate::discovery::{
    load_error,
    seen_with,
    specs_of,
    DiscoveryView,
    FrameView,
    ProgressView,
    RequestView,
    Stage,
};
use crate::error::ErrorView;
use crate::path::{parent_of, path_join};
use crate::world::{lemma_run_done, lemma_run_step, run, same_inputs, Gathered, World};
use crate::SPENV_FILENAME;

verus! {

/// The path of the declaration file of a directory.
pub open spec fn declaration_file(dir: Seq<char>) -> Seq<char> {
    path_join(dir, SPENV_FILENAME@)
}

/// What the walk up from `dir` puts in front of `found`, the declarations
/// found below: the declaration of each directory above `dir` that has one,
/// the outermost first, up to and including the first that does not ask to
/// go on, or up to the root. Every file that is loaded counts as seen from
/// then on, by its canonical path.
pub open spec fn ascent(
    world: World,
    dir: Seq<char>,
    found: Seq<EnvSpecView>,
    seen: Seq<Seq<char>>,
) -> Result<Gathered, ErrorView>
    decreases dir.len(),
{
    match parent_of(dir) {
        None => Ok(Gathered { specs: found, seen }),
        Some(up) => {
            let file = declaration_file(up);
            if (world.is_file)(file) {
                let seen_now = seen_with(seen, world.key(file));
                match (world.load)(file) {
                    Err(failure) => Err(load_error(file, failure)),
                    Ok(raw) => {
                        let spec = raw.loaded_from(file);
                        if spec.inherit {
                            ascent(world, up, seq![spec] + found, seen_now)
                        } else {
                            Ok(Gathered { specs: seq![spec] + found, seen: seen_now })
                        }
                    },
                }
            } else {
                ascent(world, up, found, seen)
            }
        },
    }
}

/// The declarations that a run from `start` finds in the tree, outermost
/// first, with the files seen after them, or the error that the search ends
/// with.
///
/// Whether the search goes on above the starting directory is decided by
/// `force_inherit` first, by `no_inherit` next, and by the starting
/// directory's own declaration last. Without a declaration there the search
/// goes up unless `no_inherit` forbids it.
pub open spec fn in_tree(
    world: World,
    start: Seq<char>,
    no_inherit: bool,
    force_inherit: bool,
    seen: Seq<Seq<char>>,
) -> Result<Gathered, ErrorView> {
    let file = declaration_file(start);
    if (world.is_file)(file) {
        let seen_now = seen_with(seen, world.key(file));
        match (world.load)(file) {
            Err(failure) => Err(load_error(file, failure)),
            Ok(raw) => {
                let spec = raw.loaded_from(file);
                if force_inherit || (!no_inherit && spec.inherit) {
                    ascent(world, start, seq![spec], seen_now)
                } else {
                    Ok(Gathered { specs: seq![spec], seen: seen_now })
                }
            },
        }
    } else if no_inherit {
        Err(ErrorView::NotFoundAtPath(start))
    } else {
        match ascent(world, start, Seq::empty(), seen) {
            Ok(found) => if found.specs.len() == 0 {
                Err(ErrorView::NotFoundInTree(start))
            } else {
                Ok(found)
            },
            Err(e) => Err(e),
        }
    }
}

/// Whether some directory above `dir` has a declaration file.
pub open spec fn declared_above(world: World, dir: Seq<char>) -> bool
    decreases dir.len(),
{
    match parent_of(dir) {
        None => false,
        Some(up) => world.declares(up) || declared_above(world, up),
    }
}

/// Whether two states differ in nothing but the walk up the tree: what it
/// has found and seen, where it has got to and what it is waiting for.
pub open spec fn same_but_walk(a: DiscoveryView, b: DiscoveryView) -> bool {
    &&& same_inputs(a, b)
    &&& a.position == b.position
    &&& a.roots == b.roots
    &&& a.cursor == b.cursor
    &&& a.stack == b.stack
    &&& a.output == b.output
}

/// Whether `after` is where a run stands when it has left the tree with
/// `found`, having been in `before` when it began to walk.
pub open spec fn left_with(
    before: DiscoveryView,
    found: Gathered,
    after: (DiscoveryView, ProgressView),
) -> bool {
    exists|at: DiscoveryView| #[trigger]
        at.leave_tree() == after && specs_of(at.found) == found.specs && at.seen == found.seen
            && same_but_walk(at, before)
}

/// Whether `after` is where a run stands when it turns to the includes of
/// its roots, having been in `before` when it turned to the tree, and having
/// found `found` there: the roots are those of `before` followed by the
/// declarations found, the files of those are seen, and nothing else that
/// matters has changed.
pub open spec fn tree_joined(
    before: DiscoveryView,
    found: Gathered,
    after: (DiscoveryView, ProgressView),
) -> bool {
    exists|at: DiscoveryView| #[trigger]
        at.resolve_all_includes() == after && specs_of(at.roots) == specs_of(before.roots)
            + found.specs && at.found.len() == 0 && at.seen == found.seen && same_inputs(
            at,
            before,
        ) && at.position == before.position && at.cursor == before.cursor && at.stack
            == before.stack && at.output == before.output
}

/// The walk up never loses what was found below.
pub proof fn lemma_ascent_keeps(
    world: World,
    dir: Seq<char>,
    found: Seq<EnvSpecView>,
    seen: Seq<Seq<char>>,
)
    ensures
        ascent(world, dir, found, seen) matches Ok(all) ==> all.specs.len() >= found.len(),
    decreases dir.len(),
{
    match parent_of(dir) {
        None => {},
        Some(up) => {
            let file = declaration_file(up);
            if (world.is_file)(file) {
                match (world.load)(file) {
                    Err(failure) => {},
                    Ok(raw) => {
                        let spec = raw.loaded_from(file);
                        if spec.inherit {
                            lemma_ascent_keeps(
                                world,
                                up,
                                seq![spec] + found,
                                seen_with(seen, world.key(file)),
                            );
                        }
                    },
                }
            } else {
                lemma_ascent_keeps(world, up, found, seen);
            }
        },
    }
}

/// The conversation loads a file of the tree in two answered requests: the
/// file counts as seen, by its canonical path, and its declaration, or the
/// error of loading it, is there.
pub proof fn lemma_conversation_loads_tree_file(world: World, state: DiscoveryView, walking: bool)
    ensures
        ({
            let file = state.pending;
            let asking = DiscoveryView {
                stage: if walking {
                    Stage::WalkCanonical
                } else {
                    Stage::StartCanonical
                },
                ..state
            };
            let keyed = DiscoveryView {
                seen: seen_with(state.seen, world.key(file)),
                key: world.key(file),
                stage: if walking {
                    Stage::WalkLoad
                } else {
                    Stage::StartLoad
                },
                ..state
            };
            run(world, asking, ProgressView::Ask(RequestView::Canonicalize { path: file }), 2)
                == match (world.load)(file) {
                Err(failure) => keyed.fail(load_error(file, failure)),
                Ok(raw) => keyed.on_loaded(raw),
            }
        }),
{
    let file = state.pending;
    let asking = DiscoveryView {
        stage: if walking {
            Stage::WalkCanonical
        } else {
            Stage::StartCanonical
        },
        ..state
    };
    let keyed = DiscoveryView {
        seen: seen_with(state.seen, world.key(file)),
        key: world.key(file),
        stage: if walking {
            Stage::WalkLoad
        } else {
            Stage::StartLoad
        },
        ..state
    };
    let ask = RequestView::Canonicalize { path: file };
    let load = RequestView::Load { path: file };
    assert(asking.next(world.answer(ask)) == (keyed, ProgressView::Ask(load)));
    lemma_run_step(world, asking, ask, 1);
    lemma_run_step(world, keyed, load, 0);
    let ended = keyed.next(world.answer(load));
    lemma_run_done(world, ended.0, ended.1, 0);
}

/// The conversation walks up the tree as [`ascent`] says: from a state that
/// is about to go up from its current directory, some number of answered
/// requests leads to the error of the walk, or out of the tree with what
/// the walk finds.
pub proof fn lemma_walk_follows_ascent(world: World, state: DiscoveryView) -> (steps: nat)
    ensures
        match ascent(world, state.current, specs_of(state.found), state.seen) {
            Err(e) => run(world, state.climb().0, state.climb().1, steps).1 == ProgressView::Done(
                Err(e),
            ),
            Ok(found) => left_with(
                state,
                found,
                run(world, state.climb().0, state.climb().1, steps),
            ),
        },
    decreases state.current.len(),
{
    match parent_of(state.current) {
        None => {
            lemma_run_done(world, state.climb().0, state.climb().1, 0);
            assert(state.leave_tree() == state.climb());
            assert(state.leave_tree() == run(world, state.climb().0, state.climb().1, 0)
                && same_but_walk(state, state));
            0
        },
        Some(up) => {
            let file = declaration_file(up);
            let probing = DiscoveryView {
                current: up,
                stage: Stage::WalkProbe,
                pending: file,
                ..state
            };
            let probe = RequestView::IsFile { path: file };
            assert(state.climb() == (probing, ProgressView::Ask(probe)));
            if (world.is_file)(file) {
                let asking = DiscoveryView { stage: Stage::WalkCanonical, ..probing };
                let ask = RequestView::Canonicalize { path: file };
                assert(probing.next(world.answer(probe)) == (asking, ProgressView::Ask(ask)));
                lemma_conversation_loads_tree_file(world, probing, true);
                let keyed = DiscoveryView {
                    seen: seen_with(state.seen, world.key(file)),
                    key: world.key(file),
                    stage: Stage::WalkLoad,
                    ..probing
                };
                lemma_run_step(world, probing, probe, 2);
                match (world.load)(file) {
                    Err(failure) => 3,
                    Ok(raw) => {
                        let spec = raw.loaded_from(file);
                        let frame = FrameView { spec, key: keyed.key, next: 0 };
                        let grown = DiscoveryView { found: seq![frame] + state.found, ..keyed };
                        assert(specs_of(grown.found) =~= seq![spec] + specs_of(state.found));
                        if spec.inherit {
                            assert(keyed.on_loaded(raw) == grown.climb());
                            let more = lemma_walk_follows_ascent(world, grown);
                            lemma_run_step(world, probing, probe, more + 2);
                            crate::world::lemma_run_split(
                                world,
                                asking,
                                ProgressView::Ask(ask),
                                2,
                                more,
                            );
                            let after = run(world, grown.climb().0, grown.climb().1, more);
                            match ascent(world, up, seq![spec] + specs_of(state.found), keyed.seen) {
                                Err(e) => {},
                                Ok(found) => {
                                    let at = choose|at: DiscoveryView| #[trigger]
                                        at.leave_tree() == after && specs_of(at.found)
                                            == found.specs && at.seen == found.seen
                                            && same_but_walk(at, grown);
                                    assert(at.leave_tree() == after && specs_of(at.found)
                                        == found.specs && at.seen == found.seen
                                        && same_but_walk(at, state));
                                },
                            }
                            more + 3
                        } else {
                            assert(keyed.on_loaded(raw) == grown.leave_tree());
                            assert(grown.leave_tree() == run(
                                world,
                                state.climb().0,
                                state.climb().1,
                                3,
                            ) && specs_of(grown.found) == seq![spec] + specs_of(state.found)
                                && grown.seen == keyed.seen && same_but_walk(grown, state));
                            3
                        }
                    },
                }
            } else {
                assert(probing.next(world.answer(probe)) == probing.climb());
                let more = lemma_walk_follows_ascent(world, probing);
                lemma_run_step(world, probing, probe, more);
                let after = run(world, probing.climb().0, probing.climb().1, more);
                match ascent(world, up, specs_of(state.found), state.seen) {
                    Err(e) => {},
                    Ok(found) => {
                        let at = choose|at: DiscoveryView| #[trigger]
                            at.leave_tree() == after && specs_of(at.found) == found.specs
                                && at.seen == found.seen && same_but_walk(at, probing);
                        assert(at.leave_tree() == after && specs_of(at.found) == found.specs
                            && at.seen == found.seen && same_but_walk(at, state));
                    },
                }
                more + 1
            }
        },
    }
}

/// Where a run stands when it has dealt with the tree: at the error of the
/// search, or at the includes of its roots, which the declarations found in
/// the tree have joined.
pub open spec fn tree_done(
    world: World,
    before: DiscoveryView,
    after: (DiscoveryView, ProgressView),
) -> bool {
    match in_tree(world, before.start, before.no_inherit, before.force_inherit, before.seen) {
        Err(e) => after.1 == ProgressView::Done(Err(e)),
        Ok(found) => tree_joined(before, found, after),
    }
}

/// A state that has left the tree with something found has turned to the
/// includes of its roots.
pub proof fn lemma_left_is_joined(
    before: DiscoveryView,
    found: Gathered,
    after: (DiscoveryView, ProgressView),
)
    requires
        left_with(before, found, after),
        found.specs.len() > 0,
    ensures
        tree_joined(before, found, after),
{
    let at = choose|at: DiscoveryView| #[trigger]
        at.leave_tree() == after && specs_of(at.found) == found.specs && at.seen == found.seen
            && same_but_walk(at, before);
    let joined = DiscoveryView { roots: at.roots + at.found, found: Seq::empty(), ..at };
    assert(at.found.len() == specs_of(at.found).len());
    assert(joined.resolve_all_includes() == after);
    assert(specs_of(joined.roots) =~= specs_of(before.roots) + found.specs);
}

/// The conversation finds in the tree what [`in_tree`] says: from a state
/// that turns to the tree with nothing found yet, some number of answered
/// requests leads to the error of the search, or to the includes of the
/// roots, which the declarations of the tree have joined in their order.
pub proof fn lemma_conversation_follows_tree(world: World, state: DiscoveryView) -> (steps: nat)
    requires
        state.found.len() == 0,
    ensures
        tree_done(
            world,
            state,
            run(world, state.discover_in_tree().0, state.discover_in_tree().1, steps),
        ),
{
    let file = declaration_file(state.start);
    let probing = DiscoveryView { stage: Stage::StartProbe, pending: file, ..state };
    let probe = RequestView::IsFile { path: file };
    assert(state.discover_in_tree() == (probing, ProgressView::Ask(probe)));
    assert(state.found =~= Seq::empty());
    assert(specs_of(state.found) =~= Seq::empty());
    if (world.is_file)(file) {
        let asking = DiscoveryView { stage: Stage::StartCanonical, ..probing };
        let ask = RequestView::Canonicalize { path: file };
        assert(probing.next(world.answer(probe)) == (asking, ProgressView::Ask(ask)));
        lemma_conversation_loads_tree_file(world, probing, false);
        let keyed = DiscoveryView {
            seen: seen_with(state.seen, world.key(file)),
            key: world.key(file),
            stage: Stage::StartLoad,
            ..probing
        };
        lemma_run_step(world, probing, probe, 2);
        match (world.load)(file) {
            Err(failure) => 3,
            Ok(raw) => {
                let spec = raw.loaded_from(file);
                let frame = FrameView { spec, key: keyed.key, next: 0 };
                let grown = DiscoveryView {
                    found: seq![frame] + state.found,
                    current: state.start,
                    ..keyed
                };
                assert(specs_of(grown.found) =~= seq![spec]);
                if state.force_inherit || (!state.no_inherit && spec.inherit) {
                    assert(keyed.on_loaded(raw) == grown.climb());
                    let more = lemma_walk_follows_ascent(world, grown);
                    lemma_run_step(world, probing, probe, more + 2);
                    crate::world::lemma_run_split(world, asking, ProgressView::Ask(ask), 2, more);
                    let after = run(world, grown.climb().0, grown.climb().1, more);
                    match ascent(world, state.start, seq![spec], keyed.seen) {
                        Err(e) => {},
                        Ok(found) => {
                            lemma_ascent_keeps(world, state.start, seq![spec], keyed.seen);
                            let at = choose|at: DiscoveryView| #[trigger]
                                at.leave_tree() == after && specs_of(at.found) == found.specs
                                    && at.seen == found.seen && same_but_walk(at, grown);
                            assert(at.leave_tree() == after && specs_of(at.found) == found.specs
                                && at.seen == found.seen && same_but_walk(at, state));
                            lemma_left_is_joined(state, found, after);
                        },
                    }
                    more + 3
                } else {
                    assert(keyed.on_loaded(raw) == grown.leave_tree());
                    let after = run(world, probing, ProgressView::Ask(probe), 3);
                    let found = Gathered { specs: seq![spec], seen: keyed.seen };
                    assert(grown.leave_tree() == after && specs_of(grown.found) == found.specs
                        && grown.seen == found.seen && same_but_walk(grown, state));
                    lemma_left_is_joined(state, found, after);
                    3
                }
            },
        }
    } else if state.no_inherit {
        let ended = probing.next(world.answer(probe));
        assert(ended.1 == ProgressView::Done(Err(ErrorView::NotFoundAtPath(state.start))));
        lemma_run_step(world, probing, probe, 0);
        lemma_run_done(world, ended.0, ended.1, 0);
        1
    } else {
        let walking = DiscoveryView { current: state.start, ..probing };
        assert(probing.next(world.answer(probe)) == walking.climb());
        let more = lemma_walk_follows_ascent(world, walking);
        lemma_run_step(world, probing, probe, more);
        let after = run(world, walking.climb().0, walking.climb().1, more);
        match ascent(world, state.start, Seq::empty(), state.seen) {
            Err(e) => {},
            Ok(found) => {
                let at = choose|at: DiscoveryView| #[trigger]
                    at.leave_tree() == after && specs_of(at.found) == found.specs && at.seen
                        == found.seen && same_but_walk(at, walking);
                assert(at.found.len() == specs_of(at.found).len());
                if found.specs.len() == 0 {
                    assert(after.1 == ProgressView::Done(
                        Err(ErrorView::NotFoundInTree(state.start)),
                    ));
                } else {
                    assert(at.leave_tree() == after && specs_of(at.found) == found.specs
                        && at.seen == found.seen && same_but_walk(at, state));
                    lemma_left_is_joined(state, found, after);
                }
            },
        }
        more + 1
    }
}

/// Where no directory above `dir` has a declaration file, the walk up from
/// `dir` finds nothing more.
pub proof fn lemma_nothing_above(
    world: World,
    dir: Seq<char>,
    found: Seq<EnvSpecView>,
    seen: Seq<Seq<char>>,
)
    requires
        !declared_above(world, dir),
    ensures
        ascent(world, dir, found, seen) == Ok::<Gathered, ErrorView>(
            Gathered { specs: found, seen },
        ),
    decreases dir.len(),
{
    match parent_of(dir) {
        None => {},
        Some(up) => {
            lemma_nothing_above(world, up, found, seen);
        },
    }
}

/// With no declaration file in the starting directory or in any directory
/// above it, the search ends with `NotFoundInTree`, unless `no_inherit`
/// keeps it from going up.
pub proof fn lemma_nothing_declared(
    world: World,
    start: Seq<char>,
    force_inherit: bool,
    seen: Seq<Seq<char>>,
)
    requires
        !world.declares(start),
        !declared_above(world, start),
    ensures
        in_tree(world, start, false, force_inherit, seen) == Err::<Gathered, ErrorView>(
            ErrorView::NotFoundInTree(start),
        ),
{
    lemma_nothing_above(world, start, Seq::empty(), seen);
}

/// A declaration that does not ask to go on stands alone: where the
/// starting directory has a declaration with `inherit` off and nothing
/// forces the search on, that declaration is all that is found, whatever the
/// directories above hold.
pub proof fn lemma_child_alone(
    world: World,
    start: Seq<char>,
    no_inherit: bool,
    seen: Seq<Seq<char>>,
)
    requires
        world.declares(start),
        world.declaration(declaration_file(start)) matches Some(child) && !child.inherit,
    ensures
        in_tree(world, start, no_inherit, false, seen) matches Ok(found) && found.specs == seq![
            world.declaration(declaration_file(start))->0,
        ],
{
}

/// With `inherit` on, the declaration of the directory above comes first:
/// where the starting directory's declaration asks to go on, and the
/// directory above has a declaration that does not, exactly the two are
/// found, the one from above first.
pub proof fn lemma_parent_first(world: World, start: Seq<char>, up: Seq<char>, seen: Seq<Seq<char>>)
    requires
        parent_of(start) == Some(up),
        world.declares(start),
        world.declares(up),
        world.declaration(declaration_file(start)) matches Some(child) && child.inherit,
        world.declaration(declaration_file(up)) matches Some(above) && !above.inherit,
    ensures
        in_tree(world, start, false, false, seen) matches Ok(found) && found.specs == seq![
            world.declaration(declaration_file(up))->0,
            world.declaration(declaration_file(start))->0,
        ],
{
    let child = world.declaration(declaration_file(start))->0;
    let above = world.declaration(declaration_file(up))->0;
    assert(seq![above] + seq![child] =~= seq![above, child]);
}

/// `force_inherit` always walks up: the declarations found are those of the
/// walk up from the starting directory, whatever that directory's own
/// declaration says about going on and whatever `no_inherit` says.
pub proof fn lemma_force_inherit_walks(
    world: World,
    start: Seq<char>,
    no_inherit: bool,
    seen: Seq<Seq<char>>,
)
    requires
        world.declares(start),
        world.declaration(declaration_file(start)) is Some,
    ensures
        in_tree(world, start, no_inherit, true, seen) == ascent(
            world,
            start,
            seq![world.declaration(declaration_file(start))->0],
            seen_with(seen, world.key(declaration_file(start))),
        ),
{
}

/// `no_inherit` never walks up, unless `force_inherit` overrides it: the
/// declaration of the starting directory is all that is found, whatever it
/// says about going on, and without one the search ends with
/// `NotFoundAtPath`.
pub proof fn lemma_no_inherit_stays(world: World, start: Seq<char>, seen: Seq<Seq<char>>)
    ensures
        world.declares(start) ==> (world.declaration(declaration_file(start)) matches Some(
            child,
        ) ==> (in_tree(world, start, true, false, seen) matches Ok(found) && found.specs
            == seq![child])),
        !world.declares(start) ==> in_tree(world, start, true, false, seen) == Err::<
            Gathered,
            ErrorView,
        >(ErrorView::NotFoundAtPath(start)),
{
}

/// Whether the files of all declarations of a list are among those seen, by
/// the paths that files of the tree count by.
pub open spec fn tree_files_seen(world: World, specs: Seq<EnvSpecView>, seen: Seq<Seq<char>>) -> bool {
    forall|i: int| 0 <= i < specs.len() ==> tree_file_seen(world, #[trigger] specs[i], seen)
}

/// Whether the file of a declaration is among those seen, by the path that
/// a file of the tree counts by.
pub open spec fn tree_file_seen(world: World, spec: EnvSpecView, seen: Seq<Seq<char>>) -> bool {
    match spec.source_path {
        Some(path) => seen.contains(world.key(path)),
        None => false,
    }
}

/// Whether everything seen before is still seen after.
pub open spec fn still_seen(before: Seq<Seq<char>>, after: Seq<Seq<char>>) -> bool {
    forall|p: Seq<char>| before.contains(p) ==> after.contains(p)
}

/// The walk up remembers every file it loads: what was seen stays seen, no
/// file is seen twice, and the files of all declarations found are seen.
pub proof fn lemma_ascent_remembers(
    world: World,
    dir: Seq<char>,
    found: Seq<EnvSpecView>,
    seen: Seq<Seq<char>>,
)
    requires
        seen.no_duplicates(),
        tree_files_seen(world, found, seen),
    ensures
        ascent(world, dir, found, seen) matches Ok(all) ==> all.seen.no_duplicates()
            && still_seen(seen, all.seen) && tree_files_seen(world, all.specs, all.seen),
    decreases dir.len(),
{
    match parent_of(dir) {
        None => {},
        Some(up) => {
            let file = declaration_file(up);
            if (world.is_file)(file) {
                let seen_now = seen_with(seen, world.key(file));
                crate::cycles::lemma_seen_with_keeps(seen, world.key(file));
                match (world.load)(file) {
                    Err(failure) => {},
                    Ok(raw) => {
                        let spec = raw.loaded_from(file);
                        let grown = seq![spec] + found;
                        assert forall|i: int| 0 <= i < grown.len() implies tree_file_seen(
                            world,
                            #[trigger] grown[i],
                            seen_now,
                        ) by {
                            if i > 0 {
                                assert(grown[i] == found[i - 1]);
                                assert(tree_file_seen(world, found[i - 1], seen));
                            }
                        }
                        if spec.inherit {
                            lemma_ascent_remembers(world, up, grown, seen_now);
                        }
                    },
                }
            } else {
                lemma_ascent_remembers(world, up, found, seen);
            }
        },
    }
}

/// The search of the tree remembers every file it loads: what was seen
/// stays seen, no file is seen twice, and the file of every declaration
/// found, the starting directory's and each one above, is seen.
pub proof fn lemma_tree_files_are_seen(
    world: World,
    start: Seq<char>,
    no_inherit: bool,
    force_inherit: bool,
    seen: Seq<Seq<char>>,
)
    requires
        seen.no_duplicates(),
    ensures
        in_tree(world, start, no_inherit, force_inherit, seen) matches Ok(found)
            ==> found.seen.no_duplicates() && still_seen(seen, found.seen) && tree_files_seen(
            world,
            found.specs,
            found.seen,
        ),
{
    let file = declaration_file(start);
    if (world.is_file)(file) {
        let seen_now = seen_with(seen, world.key(file));
        crate::cycles::lemma_seen_with_keeps(seen, world.key(file));
        match (world.load)(file) {
            Err(failure) => {},
            Ok(raw) => {
                let spec = raw.loaded_from(file);
                assert(tree_file_seen(world, seq![spec][0], seen_now));
                lemma_ascent_remembers(world, start, seq![spec], seen_now);
            },
        }
    } else if !no_inherit {
        lemma_ascent_remembers(world, start, Seq::empty(), seen);
    }
}

/// The file system that differs from `world` in one thing: the declaration
/// in `file`, where there is one, asks to go on to the directories above.
pub open spec fn inheriting(world: World, file: Seq<char>) -> World {
    World {
        load: |path: Seq<char>|
            if path == file {
                match (world.load)(file) {
                    Ok(raw) => Ok(EnvSpecView { inherit: true, ..raw }),
                    Err(failure) => Err(failure),
                }
            } else {
                (world.load)(path)
            },
        ..world
    }
}

/// Whether `file` is the declaration file of no directory above `dir`.
pub open spec fn not_above(file: Seq<char>, dir: Seq<char>) -> bool
    decreases dir.len(),
{
    match parent_of(dir) {
        None => true,
        Some(up) => declaration_file(up) != file && not_above(file, up),
    }
}

/// The files that a list of declarations was loaded from.
pub open spec fn paths_of(specs: Seq<EnvSpecView>) -> Seq<Option<Seq<char>>> {
    specs.map_values(|s: EnvSpecView| s.source_path)
}

/// Whether two searches of the tree end alike: with declarations from the
/// same files in the same order and the same files seen, or with the same
/// error.
pub open spec fn same_paths(a: Result<Gathered, ErrorView>, b: Result<Gathered, ErrorView>) -> bool {
    match (a, b) {
        (Ok(x), Ok(y)) => paths_of(x.specs) == paths_of(y.specs) && x.seen == y.seen,
        (Err(x), Err(y)) => x == y,
        _ => false,
    }
}

/// The walk up does not depend on what the declaration of a file says that
/// lies in no directory above.
pub proof fn lemma_ascent_ignores(
    world: World,
    file: Seq<char>,
    dir: Seq<char>,
    found: Seq<EnvSpecView>,
    other: Seq<EnvSpecView>,
    seen: Seq<Seq<char>>,
)
    requires
        not_above(file, dir),
        paths_of(found) == paths_of(other),
    ensures
        same_paths(
            ascent(world, dir, found, seen),
            ascent(inheriting(world, file), dir, other, seen),
        ),
    decreases dir.len(),
{
    let changed = inheriting(world, file);
    match parent_of(dir) {
        None => {},
        Some(up) => {
            let here = declaration_file(up);
            assert((changed.load)(here) == (world.load)(here));
            assert(changed.key(here) == world.key(here));
            if (world.is_file)(here) {
                match (world.load)(here) {
                    Err(failure) => {},
                    Ok(raw) => {
                        let spec = raw.loaded_from(here);
                        assert(paths_of(found).len() == found.len());
                        assert(paths_of(other).len() == other.len());
                        assert forall|i: int| 0 <= i < found.len() implies found[i].source_path
                            == other[i].source_path by {
                            assert(paths_of(found)[i] == found[i].source_path);
                            assert(paths_of(other)[i] == other[i].source_path);
                        }
                        assert(paths_of(seq![spec] + found) =~= paths_of(seq![spec] + other));
                        if spec.inherit {
                            lemma_ascent_ignores(
                                world,
                                file,
                                up,
                                seq![spec] + found,
                                seq![spec] + other,
                                seen_with(seen, world.key(here)),
                            );
                        }
                    },
                }
            } else {
                lemma_ascent_ignores(world, file, up, found, other, seen);
            }
        },
    }
}

/// `force_inherit` gives what `inherit: true` in the starting directory's
/// declaration gives: the search ends as it would, without `force_inherit`
/// and `no_inherit`, against the file system in which that declaration asks
/// to go on, whatever it says itself and whatever `no_inherit` says. This
/// holds where the starting directory has a declaration file, and that file
/// is not also the declaration file of a directory above.
pub proof fn lemma_force_inherit_is_inherit(
    world: World,
    start: Seq<char>,
    no_inherit: bool,
    seen: Seq<Seq<char>>,
)
    requires
        world.declares(start),
        not_above(declaration_file(start), start),
    ensures
        same_paths(
            in_tree(world, start, no_inherit, true, seen),
            in_tree(inheriting(world, declaration_file(start)), start, false, false, seen),
        ),
{
    let file = declaration_file(start);
    let changed = inheriting(world, file);
    assert(changed.key(file) == world.key(file));
    match (world.load)(file) {
        Err(failure) => {},
        Ok(raw) => {
            let spec = raw.loaded_from(file);
            let forced = (EnvSpecView { inherit: true, ..raw }).loaded_from(file);
            assert(paths_of(seq![spec]) =~= paths_of(seq![forced]));
            lemma_ascent_ignores(
                world,
                file,
                start,
                seq![spec],
                seq![forced],
                seen_with(seen, world.key(file)),
            );
        },
    }
}

} // verus!
