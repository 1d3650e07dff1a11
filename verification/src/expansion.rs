//! What a discovery run returns, said in one piece, and that the
//! conversation returns exactly that.
//!
//! [`discovered`] gives the result of a run against a fixed file system as
//! a function of its inputs: the supplied entries, the declarations of the
//! tree, each with what it includes in front of it, and the local override
//! last. [`lemma_discovery_returns_discovered`] shows that the conversation
//! of [`crate::discovery`] ends with that result.

use vstd::prelude::*;
use crate::declaration::EnvSpecView;
use crate::discovery::{
    candidate,
    load_error,
    specs_of,
    DiscoveryOptionsView,
    DiscoveryView,
    FrameView,
    ProgressView,
    RequestView,
    Stage,
};
use crate::error::ErrorView;
use crate::path::parent_of;
use crate::tree::{
    declaration_file,
    declared_above,
    in_tree,
    lemma_child_alone,
    lemma_conversation_follows_tree,
    lemma_nothing_declared,
    lemma_parent_first,
    lemma_tree_files_are_seen,
    still_seen,
};
use crate::world::{
    lemma_run_done,
    lemma_run_split,
    lemma_run_step,
    local_override,
    run,
    same_inputs,
    Gathered,
    World,
};

verus! {

/// The declaration that an entry of `includes` brings in, with its file
/// among the paths seen from now on; or the error of bringing it in: the
/// entry points nowhere, its path has no canonical form, the canonical path
/// was seen before in this run, or the file gives no declaration.
pub open spec fn included(
    world: World,
    home: Option<Seq<char>>,
    entry: Seq<char>,
    base: Option<Seq<char>>,
    seen: Seq<Seq<char>>,
) -> Result<(EnvSpecView, Seq<Seq<char>>), ErrorView> {
    match candidate(entry, base, home) {
        Err(e) => Err(e),
        Ok(path) => match (world.canonical)(path) {
            Err(reason) => Err(ErrorView::IncludeNotFound { path, error: reason }),
            Ok(canonical) => if seen.contains(canonical) {
                Err(ErrorView::CircularInclude(canonical))
            } else {
                match (world.load)(canonical) {
                    Err(failure) => Err(load_error(canonical, failure)),
                    Ok(raw) => Ok((raw.loaded_from(canonical), seen.push(canonical))),
                }
            },
        },
    }
}

/// The stage in which the declaration is awaited whose canonical path is
/// awaited in `stage`.
pub open spec fn load_stage(stage: Stage) -> Stage {
    if stage == Stage::SuppliedCanonical {
        Stage::SuppliedLoad
    } else {
        Stage::IncludedLoad
    }
}

/// The conversation brings an entry in as [`included`] says: two answered
/// requests after the entry is taken up, the run has ended with the error,
/// or stands where the declaration has just been loaded.
pub proof fn lemma_conversation_includes(
    world: World,
    state: DiscoveryView,
    entry: Seq<char>,
    base: Option<Seq<char>>,
    stage: Stage,
)
    requires
        stage == Stage::SuppliedCanonical || stage == Stage::IncludedCanonical,
    ensures
        match included(world, state.home, entry, base, state.seen) {
            Err(e) => run(
                world,
                state.load_spec_from_include(entry, base, stage).0,
                state.load_spec_from_include(entry, base, stage).1,
                2,
            ).1 == ProgressView::Done(Err(e)),
            Ok((spec, seen)) => spec.source_path is Some && run(
                world,
                state.load_spec_from_include(entry, base, stage).0,
                state.load_spec_from_include(entry, base, stage).1,
                2,
            ) == (DiscoveryView {
                seen,
                key: spec.source_path->0,
                stage: load_stage(stage),
                pending: spec.source_path->0,
                ..state
            }).on_loaded(spec),
        },
{
    let taken = state.load_spec_from_include(entry, base, stage);
    match candidate(entry, base, state.home) {
        Err(e) => {
            lemma_run_done(world, taken.0, taken.1, 2);
        },
        Ok(path) => {
            let asking = DiscoveryView { stage, pending: path, ..state };
            let ask = RequestView::Canonicalize { path };
            assert(taken == (asking, ProgressView::Ask(ask)));
            lemma_run_step(world, asking, ask, 1);
            let answered = asking.next(world.answer(ask));
            match (world.canonical)(path) {
                Err(reason) => {
                    lemma_run_done(world, answered.0, answered.1, 1);
                },
                Ok(canonical) => {
                    if state.seen.contains(canonical) {
                        lemma_run_done(world, answered.0, answered.1, 1);
                    } else {
                        let loading = DiscoveryView {
                            seen: state.seen.push(canonical),
                            key: canonical,
                            stage: load_stage(stage),
                            pending: canonical,
                            ..state
                        };
                        let load = RequestView::Load { path: canonical };
                        assert(answered == (loading, ProgressView::Ask(load)));
                        lemma_run_step(world, loading, load, 0);
                        let loaded = loading.next(world.answer(load));
                        lemma_run_done(world, loaded.0, loaded.1, 0);
                        match (world.load)(canonical) {
                            Err(failure) => {},
                            Ok(raw) => {
                                let spec = raw.loaded_from(canonical);
                                assert(spec.loaded_from(canonical) == spec);
                                assert(loaded == loading.on_loaded(spec));
                            },
                        }
                    }
                },
            }
        },
    }
}

/// What a declaration adds to the result, from its entry `from` on: what
/// each remaining entry of its `includes` brings in, expanded in the same
/// way and in the order of the entries, and behind all of that the
/// declaration itself. `None` where includes are nested deeper than `depth`.
pub open spec fn expanded(
    world: World,
    home: Option<Seq<char>>,
    spec: EnvSpecView,
    from: nat,
    seen: Seq<Seq<char>>,
    depth: nat,
) -> Option<Result<Gathered, ErrorView>>
    decreases depth, spec.includes.len() - from,
{
    if from >= spec.includes.len() {
        Some(Ok(Gathered { specs: seq![spec], seen }))
    } else {
        match included(world, home, spec.includes[from as int], spec.directory(), seen) {
            Err(e) => Some(Err(e)),
            Ok((child, seen_with_child)) => if depth == 0 {
                None
            } else {
                match expanded(world, home, child, 0, seen_with_child, (depth - 1) as nat) {
                    None => None,
                    Some(Err(e)) => Some(Err(e)),
                    Some(Ok(first)) => match expanded(
                        world,
                        home,
                        spec,
                        from + 1,
                        first.seen,
                        depth,
                    ) {
                        None => None,
                        Some(Err(e)) => Some(Err(e)),
                        Some(Ok(rest)) => Some(
                            Ok(Gathered { specs: first.specs + rest.specs, seen: rest.seen }),
                        ),
                    },
                }
            },
        }
    }
}

/// Whether two states differ in nothing but the expansion of includes:
/// the open declarations, the output, the paths seen, and what is awaited.
pub open spec fn same_but_expansion(a: DiscoveryView, b: DiscoveryView) -> bool {
    &&& same_inputs(a, b)
    &&& a.position == b.position
    &&& a.roots == b.roots
    &&& a.found == b.found
    &&& a.cursor == b.cursor
}

/// Whether `after` is where a run stands when the innermost open
/// declaration of `before` has been closed: its expansion `added` is behind
/// the output, the paths seen are those of `added`, the declaration is off
/// the stack, and the run goes on expanding from there.
pub open spec fn frame_closed(
    before: DiscoveryView,
    added: Gathered,
    after: (DiscoveryView, ProgressView),
) -> bool {
    exists|at: DiscoveryView| #[trigger]
        at.resolve_all_includes() == after && at.stack == before.stack.drop_last() && at.output
            == before.output + added.specs && at.seen == added.seen && same_but_expansion(
            at,
            before,
        )
}

/// The conversation expands the innermost open declaration as [`expanded`]
/// says: after some number of answered requests the run has ended with the
/// error of the expansion, or the declaration is closed with its expansion
/// behind the output.
pub proof fn lemma_conversation_expands(world: World, state: DiscoveryView, depth: nat) -> (steps:
    nat)
    requires
        state.stack.len() > 0,
        expanded(
            world,
            state.home,
            state.stack.last().spec,
            state.stack.last().next,
            state.seen,
            depth,
        ) is Some,
    ensures
        match expanded(
            world,
            state.home,
            state.stack.last().spec,
            state.stack.last().next,
            state.seen,
            depth,
        )->0 {
            Err(e) => run(
                world,
                state.resolve_all_includes().0,
                state.resolve_all_includes().1,
                steps,
            ).1 == ProgressView::Done(Err(e)),
            Ok(added) => frame_closed(
                state,
                added,
                run(world, state.resolve_all_includes().0, state.resolve_all_includes().1, steps),
            ),
        },
    decreases depth, state.stack.last().spec.includes.len() - state.stack.last().next,
{
    let top = state.stack.last();
    let settled = state.resolve_all_includes();
    if top.next >= top.spec.includes.len() {
        let closed = DiscoveryView {
            stack: state.stack.drop_last(),
            output: state.output.push(top.spec),
            ..state
        };
        assert(settled == closed.resolve_all_includes());
        lemma_settled_stays(world, closed);
        assert(state.output.push(top.spec) =~= state.output + seq![top.spec]);
        assert(run(world, settled.0, settled.1, 0) == closed.resolve_all_includes());
        0
    } else {
        let entry = top.spec.includes[top.next as int];
        let base = top.spec.directory();
        let raised = DiscoveryView {
            stack: state.stack.drop_last().push(FrameView { next: top.next + 1, ..top }),
            ..state
        };
        assert(settled == raised.load_spec_from_include(entry, base, Stage::IncludedCanonical));
        lemma_conversation_includes(world, raised, entry, base, Stage::IncludedCanonical);
        match included(world, state.home, entry, base, state.seen) {
            Err(e) => 2,
            Ok((child, seen_with_child)) => {
                let opened = DiscoveryView {
                    seen: seen_with_child,
                    key: child.source_path->0,
                    stage: Stage::IncludedLoad,
                    pending: child.source_path->0,
                    stack: raised.stack.push(
                        FrameView { spec: child, key: child.source_path->0, next: 0 },
                    ),
                    ..raised
                };
                assert(child.loaded_from(child.source_path->0) == child);
                assert(run(world, settled.0, settled.1, 2) == opened.resolve_all_includes());
                let inner = lemma_conversation_expands(world, opened, (depth - 1) as nat);
                lemma_run_split(world, settled.0, settled.1, 2, inner);
                match expanded(world, state.home, child, 0, seen_with_child, (depth - 1) as nat)->0 {
                    Err(e) => 2 + inner,
                    Ok(first) => {
                        let after_child = run(world, settled.0, settled.1, 2 + inner);
                        let back = choose|at: DiscoveryView| #[trigger]
                            at.resolve_all_includes() == after_child && at.stack
                                == opened.stack.drop_last() && at.output == opened.output
                                + first.specs && at.seen == first.seen && same_but_expansion(
                                at,
                                opened,
                            );
                        assert(opened.stack.drop_last() =~= raised.stack);
                        assert(back.stack.last() == (FrameView { next: top.next + 1, ..top }));
                        let outer = lemma_conversation_expands(world, back, depth);
                        lemma_run_split(world, settled.0, settled.1, 2 + inner, outer);
                        match expanded(
                            world,
                            state.home,
                            top.spec,
                            top.next + 1,
                            first.seen,
                            depth,
                        )->0 {
                            Err(e) => {},
                            Ok(rest) => {
                                let after = run(world, settled.0, settled.1, 2 + inner + outer);
                                let at = choose|at: DiscoveryView| #[trigger]
                                    at.resolve_all_includes() == after && at.stack
                                        == back.stack.drop_last() && at.output == back.output
                                        + rest.specs && at.seen == rest.seen
                                        && same_but_expansion(at, back);
                                assert(back.stack.drop_last() =~= state.stack.drop_last());
                                assert(back.output + rest.specs =~= state.output + (first.specs
                                    + rest.specs));
                                assert(at.resolve_all_includes() == after && at.stack
                                    == state.stack.drop_last() && at.output == state.output + (
                                first.specs + rest.specs) && at.seen == rest.seen
                                    && same_but_expansion(at, state));
                            },
                        }
                        2 + inner + outer
                    },
                }
            },
        }
    }
}

/// A run that plays no request stays where it is.
pub proof fn lemma_settled_stays(world: World, state: DiscoveryView)
    ensures
        run(world, state.resolve_all_includes().0, state.resolve_all_includes().1, 0)
            == state.resolve_all_includes(),
{
    lemma_run_done(world, state.resolve_all_includes().0, state.resolve_all_includes().1, 0);
}

/// What the roots add to the result from the root at `cursor` on: the
/// expansion of each, in the order of the roots.
pub open spec fn expanded_all(
    world: World,
    home: Option<Seq<char>>,
    roots: Seq<EnvSpecView>,
    cursor: nat,
    seen: Seq<Seq<char>>,
    depth: nat,
) -> Option<Result<Gathered, ErrorView>>
    decreases roots.len() - cursor,
{
    if cursor >= roots.len() {
        Some(Ok(Gathered { specs: Seq::empty(), seen }))
    } else {
        match expanded(world, home, roots[cursor as int], 0, seen, depth) {
            None => None,
            Some(Err(e)) => Some(Err(e)),
            Some(Ok(first)) => match expanded_all(
                world,
                home,
                roots,
                cursor + 1,
                first.seen,
                depth,
            ) {
                None => None,
                Some(Err(e)) => Some(Err(e)),
                Some(Ok(rest)) => Some(
                    Ok(Gathered { specs: first.specs + rest.specs, seen: rest.seen }),
                ),
            },
        }
    }
}

/// Whether `after` is where a run stands when all roots of `before` are
/// expanded: their expansion `added` is behind the output, no declaration is
/// open and no root is left.
pub open spec fn roots_closed(
    before: DiscoveryView,
    added: Gathered,
    after: (DiscoveryView, ProgressView),
) -> bool {
    exists|at: DiscoveryView| #[trigger]
        at.resolve_all_includes() == after && at.stack.len() == 0 && at.cursor >= at.roots.len()
            && at.output == before.output + added.specs && at.seen == added.seen
            && same_inputs(at, before)
}

/// The conversation expands the roots as [`expanded_all`] says.
pub proof fn lemma_conversation_expands_all(world: World, state: DiscoveryView, depth: nat) -> (steps:
    nat)
    requires
        state.stack.len() == 0,
        expanded_all(world, state.home, specs_of(state.roots), state.cursor, state.seen, depth)
            is Some,
    ensures
        match expanded_all(
            world,
            state.home,
            specs_of(state.roots),
            state.cursor,
            state.seen,
            depth,
        )->0 {
            Err(e) => run(
                world,
                state.resolve_all_includes().0,
                state.resolve_all_includes().1,
                steps,
            ).1 == ProgressView::Done(Err(e)),
            Ok(added) => roots_closed(
                state,
                added,
                run(world, state.resolve_all_includes().0, state.resolve_all_includes().1, steps),
            ),
        },
    decreases state.roots.len() - state.cursor,
{
    let settled = state.resolve_all_includes();
    if state.cursor >= state.roots.len() {
        lemma_settled_stays(world, state);
        assert(state.output + Seq::<EnvSpecView>::empty() =~= state.output);
        assert(state.resolve_all_includes() == run(world, settled.0, settled.1, 0)
            && state.stack.len() == 0 && state.cursor >= state.roots.len());
        0
    } else {
        let opened = DiscoveryView {
            stack: seq![FrameView { next: 0, ..state.roots[state.cursor as int] }],
            cursor: state.cursor + 1,
            ..state
        };
        assert(settled == opened.resolve_all_includes());
        assert(specs_of(state.roots)[state.cursor as int] == state.roots[state.cursor as int].spec);
        let inner = lemma_conversation_expands(world, opened, depth);
        match expanded(
            world,
            state.home,
            state.roots[state.cursor as int].spec,
            0,
            state.seen,
            depth,
        )->0 {
            Err(e) => inner,
            Ok(first) => {
                let after_first = run(world, settled.0, settled.1, inner);
                let back = choose|at: DiscoveryView| #[trigger]
                    at.resolve_all_includes() == after_first && at.stack
                        == opened.stack.drop_last() && at.output == opened.output + first.specs
                        && at.seen == first.seen && same_but_expansion(at, opened);
                assert(opened.stack.drop_last() =~= Seq::empty());
                let outer = lemma_conversation_expands_all(world, back, depth);
                lemma_run_split(world, settled.0, settled.1, inner, outer);
                match expanded_all(
                    world,
                    state.home,
                    specs_of(state.roots),
                    state.cursor + 1,
                    first.seen,
                    depth,
                )->0 {
                    Err(e) => {},
                    Ok(rest) => {
                        let after = run(world, settled.0, settled.1, inner + outer);
                        let at = choose|at: DiscoveryView| #[trigger]
                            at.resolve_all_includes() == after && at.stack.len() == 0 && at.cursor
                                >= at.roots.len() && at.output == back.output + rest.specs
                                && at.seen == rest.seen && same_inputs(at, back);
                        assert(back.output + rest.specs =~= state.output + (first.specs
                            + rest.specs));
                        assert(at.resolve_all_includes() == after && at.stack.len() == 0
                            && at.cursor >= at.roots.len() && at.output == state.output + (
                        first.specs + rest.specs) && at.seen == rest.seen && same_inputs(
                            at,
                            state,
                        ));
                    },
                }
                inner + outer
            },
        }
    }
}

/// The declarations that the supplied entries from `position` on bring in,
/// in their order. A supplied entry has no file to be relative to.
pub open spec fn supplied_loaded(
    world: World,
    home: Option<Seq<char>>,
    supplied: Seq<Seq<char>>,
    position: nat,
    seen: Seq<Seq<char>>,
) -> Result<Gathered, ErrorView>
    decreases supplied.len() - position,
{
    if position >= supplied.len() {
        Ok(Gathered { specs: Seq::empty(), seen })
    } else {
        match included(world, home, supplied[position as int], None, seen) {
            Err(e) => Err(e),
            Ok((spec, seen_with_spec)) => match supplied_loaded(
                world,
                home,
                supplied,
                position + 1,
                seen_with_spec,
            ) {
                Err(e) => Err(e),
                Ok(rest) => Ok(Gathered { specs: seq![spec] + rest.specs, seen: rest.seen }),
            },
        }
    }
}

/// Whether `after` is where a run stands when it turns to the tree, the
/// supplied entries of `before` having brought in `added`.
pub open spec fn supplied_closed(
    before: DiscoveryView,
    added: Gathered,
    after: (DiscoveryView, ProgressView),
) -> bool {
    exists|at: DiscoveryView| #[trigger]
        at.discover_in_tree() == after && specs_of(at.roots) == specs_of(before.roots)
            + added.specs && at.seen == added.seen && same_inputs(at, before) && at.found
            == before.found && at.cursor == before.cursor && at.stack == before.stack
            && at.output == before.output
}

/// The conversation loads the supplied entries as [`supplied_loaded`] says.
pub proof fn lemma_conversation_loads_supplied(world: World, state: DiscoveryView) -> (steps: nat)
    ensures
        match supplied_loaded(world, state.home, state.supplied, state.position, state.seen) {
            Err(e) => run(world, state.next_supplied().0, state.next_supplied().1, steps).1
                == ProgressView::Done(Err(e)),
            Ok(added) => supplied_closed(
                state,
                added,
                run(world, state.next_supplied().0, state.next_supplied().1, steps),
            ),
        },
    decreases state.supplied.len() - state.position,
{
    let taken = state.next_supplied();
    if state.position >= state.supplied.len() {
        lemma_run_done(world, taken.0, taken.1, 0);
        assert(specs_of(state.roots) + Seq::<EnvSpecView>::empty() =~= specs_of(state.roots));
        assert(state.discover_in_tree() == run(world, taken.0, taken.1, 0) && specs_of(
            state.roots,
        ) == specs_of(state.roots) + Seq::<EnvSpecView>::empty());
        0
    } else {
        let entry = state.supplied[state.position as int];
        let moved = DiscoveryView { position: state.position + 1, ..state };
        assert(taken == moved.load_spec_from_include(entry, None, Stage::SuppliedCanonical));
        lemma_conversation_includes(world, moved, entry, None, Stage::SuppliedCanonical);
        match included(world, state.home, entry, None, state.seen) {
            Err(e) => 2,
            Ok((spec, seen_with_spec)) => {
                let loaded = DiscoveryView {
                    seen: seen_with_spec,
                    key: spec.source_path->0,
                    stage: Stage::SuppliedLoad,
                    pending: spec.source_path->0,
                    roots: state.roots.push(
                        FrameView { spec, key: spec.source_path->0, next: 0 },
                    ),
                    ..moved
                };
                assert(spec.loaded_from(spec.source_path->0) == spec);
                assert(run(world, taken.0, taken.1, 2) == loaded.next_supplied());
                let more = lemma_conversation_loads_supplied(world, loaded);
                lemma_run_split(world, taken.0, taken.1, 2, more);
                match supplied_loaded(
                    world,
                    state.home,
                    state.supplied,
                    state.position + 1,
                    seen_with_spec,
                ) {
                    Err(e) => {},
                    Ok(rest) => {
                        let after = run(world, taken.0, taken.1, 2 + more);
                        let at = choose|at: DiscoveryView| #[trigger]
                            at.discover_in_tree() == after && specs_of(at.roots) == specs_of(
                                loaded.roots,
                            ) + rest.specs && at.seen == rest.seen && same_inputs(at, loaded)
                                && at.found == loaded.found && at.cursor == loaded.cursor
                                && at.stack == loaded.stack && at.output == loaded.output;
                        assert(specs_of(loaded.roots) =~= specs_of(state.roots).push(spec));
                        assert(specs_of(loaded.roots) + rest.specs =~= specs_of(state.roots) + (
                        seq![spec] + rest.specs));
                        assert(at.discover_in_tree() == after && specs_of(at.roots) == specs_of(
                            state.roots,
                        ) + (seq![spec] + rest.specs) && at.seen == rest.seen && same_inputs(
                            at,
                            state,
                        ) && at.found == state.found && at.cursor == state.cursor && at.stack
                            == state.stack && at.output == state.output);
                    },
                }
                2 + more
            },
        }
    }
}

/// The result with the local override of the starting directory behind
/// `specs`, where there is one.
pub open spec fn with_local(world: World, start: Seq<char>, specs: Seq<EnvSpecView>) -> Result<
    Seq<EnvSpecView>,
    ErrorView,
> {
    let path = local_override(start);
    if (world.is_file)(path) {
        match (world.load)(path) {
            Err(failure) => Err(load_error(path, failure)),
            Ok(raw) => Ok(specs.push(raw.loaded_from(path))),
        }
    } else {
        Ok(specs)
    }
}

/// The conversation ends as [`with_local`] says: a run with no declaration
/// open and no root left ends after two answered requests with its output,
/// and the local override behind it where there is one.
pub proof fn lemma_conversation_ends_with_local(world: World, state: DiscoveryView)
    requires
        state.stack.len() == 0,
        state.cursor >= state.roots.len(),
    ensures
        run(world, state.resolve_all_includes().0, state.resolve_all_includes().1, 2).1
            == ProgressView::Done(with_local(world, state.start, state.output)),
{
    let path = local_override(state.start);
    let probing = DiscoveryView { stage: Stage::LocalProbe, pending: path, ..state };
    let probe = RequestView::IsFile { path };
    assert(state.resolve_all_includes() == (probing, ProgressView::Ask(probe)));
    lemma_run_step(world, probing, probe, 1);
    let probed = probing.next(world.answer(probe));
    if (world.is_file)(path) {
        let loading = DiscoveryView { stage: Stage::LocalLoad, ..probing };
        let load = RequestView::Load { path };
        assert(probed == (loading, ProgressView::Ask(load)));
        lemma_run_step(world, loading, load, 0);
        let ended = loading.next(world.answer(load));
        lemma_run_done(world, ended.0, ended.1, 0);
    } else {
        lemma_run_done(world, probed.0, probed.1, 1);
    }
}

/// What a discovery run returns.
///
/// First come the declarations of the supplied entries, the caller's
/// before the environment's; next those found in the tree, the outermost
/// first. Each of them stands behind everything that its `includes` bring
/// in, entry by entry and depth first. Every file that is loaded, supplied,
/// found in the tree or included, counts as seen from then on, and an entry
/// of `includes` that leads to a file seen is a circular include. Last comes
/// the local override of the starting directory, which is not expanded. The
/// first error ends the run. `None` where includes are nested deeper than
/// `depth`.
pub open spec fn discovered(
    world: World,
    start: Seq<char>,
    options: DiscoveryOptionsView,
    home: Option<Seq<char>>,
    depth: nat,
) -> Option<Result<Seq<EnvSpecView>, ErrorView>> {
    match supplied_loaded(
        world,
        home,
        options.cli_includes + options.env_includes,
        0,
        Seq::empty(),
    ) {
        Err(e) => Some(Err(e)),
        Ok(supplied) => match in_tree(
            world,
            start,
            options.no_inherit,
            options.force_inherit,
            supplied.seen,
        ) {
            Err(e) => Some(Err(e)),
            Ok(tree) => match expanded_all(
                world,
                home,
                supplied.specs + tree.specs,
                0,
                tree.seen,
                depth,
            ) {
                None => None,
                Some(Err(e)) => Some(Err(e)),
                Some(Ok(all)) => Some(with_local(world, start, all.specs)),
            },
        },
    }
}

/// Discovery returns what [`discovered`] says: against a file system that
/// does not change, the conversation ends, after some number of answered
/// requests, with exactly that list or that error.
pub proof fn lemma_discovery_returns_discovered(
    world: World,
    start: Seq<char>,
    options: DiscoveryOptionsView,
    home: Option<Seq<char>>,
    depth: nat,
) -> (steps: nat)
    requires
        discovered(world, start, options, home, depth) is Some,
    ensures
        run(
            world,
            DiscoveryView::begin(start, options, home).0,
            DiscoveryView::begin(start, options, home).1,
            steps,
        ).1 == ProgressView::Done(discovered(world, start, options, home, depth)->0),
{
    let initial = DiscoveryView::fresh(start, options, home);
    let first = DiscoveryView::begin(start, options, home);
    let none = Seq::<EnvSpecView>::empty();
    assert(specs_of(initial.roots) =~= none);
    let a = lemma_conversation_loads_supplied(world, initial);
    match supplied_loaded(world, home, initial.supplied, 0, Seq::empty()) {
        Err(e) => a,
        Ok(supplied) => {
            let after_supplied = run(world, first.0, first.1, a);
            let at_tree = choose|at: DiscoveryView| #[trigger]
                at.discover_in_tree() == after_supplied && specs_of(at.roots) == specs_of(
                    initial.roots,
                ) + supplied.specs && at.seen == supplied.seen && same_inputs(at, initial)
                    && at.found == initial.found && at.cursor == initial.cursor && at.stack
                    == initial.stack && at.output == initial.output;
            assert(none + supplied.specs =~= supplied.specs);
            let b = lemma_conversation_follows_tree(world, at_tree);
            lemma_run_split(world, first.0, first.1, a, b);
            match in_tree(
                world,
                start,
                options.no_inherit,
                options.force_inherit,
                supplied.seen,
            ) {
                Err(e) => a + b,
                Ok(tree) => {
                    let after_tree = run(world, first.0, first.1, a + b);
                    let at_roots = choose|at: DiscoveryView| #[trigger]
                        at.resolve_all_includes() == after_tree && specs_of(at.roots) == specs_of(
                            at_tree.roots,
                        ) + tree.specs && at.found.len() == 0 && at.seen == tree.seen
                            && same_inputs(at, at_tree) && at.position == at_tree.position
                            && at.cursor == at_tree.cursor && at.stack == at_tree.stack
                            && at.output == at_tree.output;
                    let c = lemma_conversation_expands_all(world, at_roots, depth);
                    lemma_run_split(world, first.0, first.1, a + b, c);
                    match expanded_all(
                        world,
                        home,
                        supplied.specs + tree.specs,
                        0,
                        tree.seen,
                        depth,
                    )->0 {
                        Err(e) => a + b + c,
                        Ok(all) => {
                            let after_roots = run(world, first.0, first.1, a + b + c);
                            let at_end = choose|at: DiscoveryView| #[trigger]
                                at.resolve_all_includes() == after_roots && at.stack.len() == 0
                                    && at.cursor >= at.roots.len() && at.output
                                    == at_roots.output + all.specs && at.seen == all.seen
                                    && same_inputs(at, at_roots);
                            assert(at_roots.output + all.specs =~= all.specs);
                            lemma_conversation_ends_with_local(world, at_end);
                            lemma_run_split(world, first.0, first.1, a + b + c, 2);
                            a + b + c + 2
                        },
                    }
                },
            }
        },
    }
}

/// Discovery fails with `NotFoundInTree` where there is nothing to find: a
/// run whose supplied entries load, free to walk up, from a starting
/// directory that has no declaration file and none above it, ends with that
/// error after some number of answered requests.
pub proof fn lemma_discovery_finds_nothing(
    world: World,
    start: Seq<char>,
    options: DiscoveryOptionsView,
    home: Option<Seq<char>>,
) -> (steps: nat)
    requires
        supplied_loaded(
            world,
            home,
            options.cli_includes + options.env_includes,
            0,
            Seq::empty(),
        ) is Ok,
        !options.no_inherit,
        !world.declares(start),
        !declared_above(world, start),
    ensures
        run(
            world,
            DiscoveryView::begin(start, options, home).0,
            DiscoveryView::begin(start, options, home).1,
            steps,
        ).1 == ProgressView::Done(Err(ErrorView::NotFoundInTree(start))),
{
    let supplied = supplied_loaded(
        world,
        home,
        options.cli_includes + options.env_includes,
        0,
        Seq::empty(),
    )->Ok_0;
    lemma_nothing_declared(world, start, options.force_inherit, supplied.seen);
    lemma_discovery_returns_discovered(world, start, options, home, 0)
}

/// Whether a declaration was brought in afresh: its file was not among the
/// paths seen `before`, and is among those seen `after`.
pub open spec fn fresh(before: Seq<Seq<char>>, after: Seq<Seq<char>>, spec: EnvSpecView) -> bool {
    match spec.source_path {
        Some(path) => !before.contains(path) && after.contains(path),
        None => false,
    }
}

/// Whether the declarations of a list come from pairwise different files.
pub open spec fn distinct_files(specs: Seq<EnvSpecView>) -> bool {
    forall|i: int, j: int|
        0 <= i < j < specs.len() ==> (#[trigger] specs[i]).source_path != (
        #[trigger] specs[j]).source_path
}

/// Whether an expansion brought in nothing twice: it ends with the
/// declaration it is the expansion of, every declaration in front of that
/// was brought in afresh, no two of them come from the same file, and
/// nothing seen before is forgotten.
pub open spec fn nothing_twice(seen: Seq<Seq<char>>, spec: EnvSpecView, gathered: Gathered) -> bool {
    &&& gathered.specs.len() > 0
    &&& gathered.specs.last() == spec
    &&& forall|p: Seq<char>| seen.contains(p) ==> gathered.seen.contains(p)
    &&& forall|i: int|
        0 <= i < gathered.specs.len() - 1 ==> fresh(seen, gathered.seen, #[trigger] gathered.specs[i])
    &&& distinct_files(gathered.specs.drop_last())
}

/// No file is brought in twice: in every expansion that succeeds, the
/// included declarations come from pairwise different files, none of which
/// the run had seen before. So a declaration that includes itself, directly
/// or through others, has no expansion.
pub proof fn lemma_expansion_brings_nothing_twice(
    world: World,
    home: Option<Seq<char>>,
    spec: EnvSpecView,
    from: nat,
    seen: Seq<Seq<char>>,
    depth: nat,
)
    ensures
        expanded(world, home, spec, from, seen, depth) matches Some(Ok(gathered))
            ==> nothing_twice(seen, spec, gathered),
    decreases depth, spec.includes.len() - from,
{
    if from >= spec.includes.len() {
        assert(seq![spec].drop_last() =~= Seq::<EnvSpecView>::empty());
    } else {
        match included(world, home, spec.includes[from as int], spec.directory(), seen) {
            Err(e) => {},
            Ok((child, seen_with_child)) => {
                if depth > 0 {
                    lemma_expansion_brings_nothing_twice(
                        world,
                        home,
                        child,
                        0,
                        seen_with_child,
                        (depth - 1) as nat,
                    );
                    if let Some(Ok(first)) = expanded(
                        world,
                        home,
                        child,
                        0,
                        seen_with_child,
                        (depth - 1) as nat,
                    ) {
                        lemma_expansion_brings_nothing_twice(
                            world,
                            home,
                            spec,
                            from + 1,
                            first.seen,
                            depth,
                        );
                        if let Some(Ok(rest)) = expanded(
                            world,
                            home,
                            spec,
                            from + 1,
                            first.seen,
                            depth,
                        ) {
                            let path = child.source_path->0;
                            let all = first.specs + rest.specs;
                            let gathered = Gathered { specs: all, seen: rest.seen };
                            let n = first.specs.len() as int;
                            assert(seen_with_child == seen.push(path));
                            assert(seen_with_child[seen.len() as int] == path);
                            assert(seen_with_child.contains(path));
                            assert(first.seen.contains(path));
                            assert(rest.seen.contains(path));
                            assert(!seen.contains(path));
                            assert forall|p: Seq<char>| seen.contains(p) implies seen_with_child.contains(
                                p,
                            ) by {
                                let i = choose|i: int| 0 <= i < seen.len() && seen[i] == p;
                                assert(seen_with_child[i] == p);
                            }
                            assert forall|p: Seq<char>| seen.contains(p) implies rest.seen.contains(
                                p,
                            ) by {
                                assert(seen_with_child.contains(p));
                                assert(first.seen.contains(p));
                            }
                            assert forall|i: int| 0 <= i < all.len() - 1 implies fresh(
                                seen,
                                rest.seen,
                                #[trigger] all[i],
                            ) by {
                                if i < n - 1 {
                                    assert(all[i] == first.specs[i]);
                                    assert(fresh(seen_with_child, first.seen, first.specs[i]));
                                    let q = first.specs[i].source_path->0;
                                    assert(first.seen.contains(q));
                                    assert(rest.seen.contains(q));
                                    if seen.contains(q) {
                                        assert(seen_with_child.contains(q));
                                    }
                                } else if i == n - 1 {
                                    assert(all[i] == first.specs[i]);
                                    assert(all[i] == child);
                                } else {
                                    assert(all[i] == rest.specs[i - n]);
                                    assert(fresh(first.seen, rest.seen, rest.specs[i - n]));
                                    let q = rest.specs[i - n].source_path->0;
                                    if seen.contains(q) {
                                        assert(seen_with_child.contains(q));
                                        assert(first.seen.contains(q));
                                    }
                                }
                            }
                            let front = all.drop_last();
                            assert forall|i: int, j: int| 0 <= i < j < front.len() implies (
                            #[trigger] front[i]).source_path != (#[trigger] front[j]).source_path by {
                                if j < n - 1 {
                                    assert(first.specs.drop_last()[i] == front[i]);
                                    assert(first.specs.drop_last()[j] == front[j]);
                                } else if j == n - 1 {
                                    assert(front[j] == first.specs[j]);
                                    assert(front[j] == child);
                                    assert(front[i] == first.specs[i]);
                                    assert(fresh(seen_with_child, first.seen, first.specs[i]));
                                } else {
                                    assert(front[j] == rest.specs[j - n]);
                                    assert(fresh(first.seen, rest.seen, rest.specs[j - n]));
                                    if i < n - 1 {
                                        assert(front[i] == first.specs[i]);
                                        assert(fresh(seen_with_child, first.seen, first.specs[i]));
                                    } else if i == n - 1 {
                                        assert(front[i] == first.specs[i]);
                                        assert(front[i] == child);
                                    } else {
                                        assert(front[i] == rest.specs[i - n]);
                                        assert(rest.specs.drop_last()[i - n] == front[i]);
                                        assert(rest.specs.drop_last()[j - n] == front[j]);
                                    }
                                }
                            }
                            assert(all.last() == rest.specs.last());
                            assert(nothing_twice(seen, spec, gathered));
                        }
                    }
                }
            },
        }
    }
}

/// Whether `files` is a finite set that holds every path at which the file
/// system has a declaration.
pub open spec fn holds_declarations(world: World, files: Set<Seq<char>>) -> bool {
    &&& files.finite()
    &&& forall|p: Seq<char>| (#[trigger] (world.load)(p)) is Ok ==> files.contains(p)
}

/// The paths of `files` that are not among those seen.
pub open spec fn unseen(files: Set<Seq<char>>, seen: Seq<Seq<char>>) -> Set<Seq<char>> {
    files.filter(|p: Seq<char>| !seen.contains(p))
}

/// Seeing more leaves no more unseen.
pub proof fn lemma_unseen_shrinks(
    files: Set<Seq<char>>,
    seen: Seq<Seq<char>>,
    later: Seq<Seq<char>>,
)
    requires
        files.finite(),
        forall|p: Seq<char>| seen.contains(p) ==> later.contains(p),
    ensures
        unseen(files, later).len() <= unseen(files, seen).len(),
{
    files.lemma_len_filter(|p: Seq<char>| !seen.contains(p));
    vstd::set_lib::lemma_len_subset(unseen(files, later), unseen(files, seen));
}

/// Seeing a file for the first time leaves one fewer unseen.
pub proof fn lemma_unseen_loses(files: Set<Seq<char>>, seen: Seq<Seq<char>>, path: Seq<char>)
    requires
        files.finite(),
        files.contains(path),
        !seen.contains(path),
    ensures
        unseen(files, seen.push(path)).len() < unseen(files, seen).len(),
{
    let more = seen.push(path);
    files.lemma_len_filter(|p: Seq<char>| !seen.contains(p));
    assert(more[seen.len() as int] == path);
    assert forall|q: Seq<char>| more.contains(q) <==> seen.contains(q) || q == path by {
        if seen.contains(q) {
            let i = choose|i: int| 0 <= i < seen.len() && seen[i] == q;
            assert(more[i] == q);
        }
        if more.contains(q) {
            let i = choose|i: int| 0 <= i < more.len() && more[i] == q;
            if i < seen.len() {
                assert(seen[i] == q);
            }
        }
    }
    assert(unseen(files, more) =~= unseen(files, seen).remove(path));
    vstd::set::axiom_set_remove_len(unseen(files, seen), path);
}

/// Includes cannot be nested deeper than there are declaration files that
/// the run has not seen: with that much depth every expansion is defined.
pub proof fn lemma_expansion_is_defined(
    world: World,
    home: Option<Seq<char>>,
    spec: EnvSpecView,
    from: nat,
    seen: Seq<Seq<char>>,
    depth: nat,
    files: Set<Seq<char>>,
)
    requires
        holds_declarations(world, files),
        unseen(files, seen).len() <= depth,
    ensures
        expanded(world, home, spec, from, seen, depth) is Some,
    decreases depth, spec.includes.len() - from,
{
    if from < spec.includes.len() {
        match included(world, home, spec.includes[from as int], spec.directory(), seen) {
            Err(e) => {},
            Ok((child, seen_with_child)) => {
                let path = child.source_path->0;
                assert((world.load)(path) is Ok);
                lemma_unseen_loses(files, seen, path);
                lemma_expansion_is_defined(
                    world,
                    home,
                    child,
                    0,
                    seen_with_child,
                    (depth - 1) as nat,
                    files,
                );
                if let Some(Ok(first)) = expanded(
                    world,
                    home,
                    child,
                    0,
                    seen_with_child,
                    (depth - 1) as nat,
                ) {
                    lemma_expansion_brings_nothing_twice(
                        world,
                        home,
                        child,
                        0,
                        seen_with_child,
                        (depth - 1) as nat,
                    );
                    lemma_unseen_shrinks(files, seen_with_child, first.seen);
                    lemma_expansion_is_defined(
                        world,
                        home,
                        spec,
                        from + 1,
                        first.seen,
                        depth,
                        files,
                    );
                }
            },
        }
    }
}

/// With depth for every unseen declaration file, the expansion of all
/// roots is defined.
pub proof fn lemma_expansion_of_all_is_defined(
    world: World,
    home: Option<Seq<char>>,
    roots: Seq<EnvSpecView>,
    cursor: nat,
    seen: Seq<Seq<char>>,
    depth: nat,
    files: Set<Seq<char>>,
)
    requires
        holds_declarations(world, files),
        unseen(files, seen).len() <= depth,
    ensures
        expanded_all(world, home, roots, cursor, seen, depth) is Some,
    decreases roots.len() - cursor,
{
    if cursor < roots.len() {
        lemma_expansion_is_defined(world, home, roots[cursor as int], 0, seen, depth, files);
        if let Some(Ok(first)) = expanded(world, home, roots[cursor as int], 0, seen, depth) {
            lemma_expansion_brings_nothing_twice(
                world,
                home,
                roots[cursor as int],
                0,
                seen,
                depth,
            );
            lemma_unseen_shrinks(files, seen, first.seen);
            lemma_expansion_of_all_is_defined(
                world,
                home,
                roots,
                cursor + 1,
                first.seen,
                depth,
                files,
            );
        }
    }
}

/// Discovery ends: against a file system with finitely many declaration
/// files, every run comes to its result after finitely many answered
/// requests, however the files include each other.
pub proof fn lemma_discovery_ends(
    world: World,
    start: Seq<char>,
    options: DiscoveryOptionsView,
    home: Option<Seq<char>>,
    files: Set<Seq<char>>,
) -> (steps: nat)
    requires
        holds_declarations(world, files),
    ensures
        discovered(world, start, options, home, files.len()) is Some,
        run(
            world,
            DiscoveryView::begin(start, options, home).0,
            DiscoveryView::begin(start, options, home).1,
            steps,
        ).1 == ProgressView::Done(discovered(world, start, options, home, files.len())->0),
{
    let supplied = options.cli_includes + options.env_includes;
    if let Ok(loaded) = supplied_loaded(world, home, supplied, 0, Seq::empty()) {
        if let Ok(tree) = in_tree(
            world,
            start,
            options.no_inherit,
            options.force_inherit,
            loaded.seen,
        ) {
            files.lemma_len_filter(|p: Seq<char>| !tree.seen.contains(p));
            lemma_expansion_of_all_is_defined(
                world,
                home,
                loaded.specs + tree.specs,
                0,
                tree.seen,
                files.len(),
                files,
            );
        }
    }
    lemma_discovery_returns_discovered(world, start, options, home, files.len())
}

/// Declarations without includes add themselves and nothing else.
pub proof fn lemma_plain_declarations_expand_to_themselves(
    world: World,
    home: Option<Seq<char>>,
    roots: Seq<EnvSpecView>,
    cursor: nat,
    seen: Seq<Seq<char>>,
    depth: nat,
)
    requires
        cursor <= roots.len(),
        forall|i: int| cursor <= i < roots.len() ==> (#[trigger] roots[i]).includes.len() == 0,
    ensures
        expanded_all(world, home, roots, cursor, seen, depth) == Some(
            Ok::<Gathered, ErrorView>(Gathered { specs: roots.skip(cursor as int), seen }),
        ),
    decreases roots.len() - cursor,
{
    if cursor >= roots.len() {
        assert(roots.skip(cursor as int) =~= Seq::empty());
    } else {
        lemma_plain_declarations_expand_to_themselves(world, home, roots, cursor + 1, seen, depth);
        assert(seq![roots[cursor as int]] + roots.skip(cursor as int + 1) =~= roots.skip(
            cursor as int,
        ));
    }
}

/// With `inherit` off, the declaration of the starting directory is the
/// whole result; with `inherit` on and a declaration in the directory above
/// that has it off, the result is exactly the two, the one from above first.
/// This holds for runs without supplied entries whose declarations include
/// nothing and whose starting directory has no local override.
pub proof fn lemma_inherit_decides(
    world: World,
    start: Seq<char>,
    up: Seq<char>,
    options: DiscoveryOptionsView,
    home: Option<Seq<char>>,
)
    requires
        options.cli_includes.len() == 0,
        options.env_includes.len() == 0,
        !options.no_inherit,
        !options.force_inherit,
        !(world.is_file)(local_override(start)),
        parent_of(start) == Some(up),
        world.declares(start),
        world.declares(up),
        world.declaration(declaration_file(start)) matches Some(child) && child.includes.len()
            == 0,
        world.declaration(declaration_file(up)) matches Some(above) && above.includes.len() == 0
            && !above.inherit,
    ensures
        !(world.declaration(declaration_file(start))->0).inherit ==> discovered(
            world,
            start,
            options,
            home,
            0,
        ) == Some(
            Ok::<Seq<EnvSpecView>, ErrorView>(seq![world.declaration(declaration_file(start))->0]),
        ),
        (world.declaration(declaration_file(start))->0).inherit ==> discovered(
            world,
            start,
            options,
            home,
            0,
        ) == Some(
            Ok::<Seq<EnvSpecView>, ErrorView>(
                seq![
                    world.declaration(declaration_file(up))->0,
                    world.declaration(declaration_file(start))->0,
                ],
            ),
        ),
{
    let child = world.declaration(declaration_file(start))->0;
    let above = world.declaration(declaration_file(up))->0;
    let none = Seq::<EnvSpecView>::empty();
    assert(options.cli_includes + options.env_includes =~= Seq::<Seq<char>>::empty());
    let found = in_tree(world, start, false, false, Seq::empty());
    if child.inherit {
        lemma_parent_first(world, start, up, Seq::empty());
    } else {
        lemma_child_alone(world, start, false, Seq::empty());
    }
    let tree = found->Ok_0.specs;
    assert(none + tree =~= tree);
    lemma_plain_declarations_expand_to_themselves(world, home, tree, 0, found->Ok_0.seen, 0);
    assert(tree.skip(0) =~= tree);
}

/// The canonical path that entry `k` of the `includes` of `spec` leads to,
/// where it leads anywhere.
pub open spec fn leads_to(world: World, home: Option<Seq<char>>, spec: EnvSpecView, k: int) -> Option<
    Seq<char>,
> {
    match candidate(spec.includes[k], spec.directory(), home) {
        Ok(path) => match (world.canonical)(path) {
            Ok(canonical) => Some(canonical),
            Err(_) => None,
        },
        Err(_) => None,
    }
}

/// A declaration with only the first `k` entries of its `includes`.
pub open spec fn up_to_entry(spec: EnvSpecView, k: int) -> EnvSpecView {
    EnvSpecView { includes: spec.includes.take(k), ..spec }
}

/// The way back is a circular include: where the entries in front of entry
/// `k` expand, and entry `k` leads to a file seen by then, be it the
/// declaration's own file, a file of the tree, a supplied file or one
/// included before, the expansion ends with `CircularInclude` of that file.
pub proof fn lemma_way_back_is_circular(
    world: World,
    home: Option<Seq<char>>,
    spec: EnvSpecView,
    from: nat,
    k: int,
    seen: Seq<Seq<char>>,
    depth: nat,
    canonical: Seq<char>,
)
    requires
        from <= k < spec.includes.len(),
        expanded(world, home, up_to_entry(spec, k), from, seen, depth) matches Some(Ok(before))
            && before.seen.contains(canonical),
        leads_to(world, home, spec, k) == Some(canonical),
    ensures
        expanded(world, home, spec, from, seen, depth) == Some(
            Err::<Gathered, ErrorView>(ErrorView::CircularInclude(canonical)),
        ),
    decreases k - from,
{
    let cut = up_to_entry(spec, k);
    if from < k {
        assert(cut.includes[from as int] == spec.includes[from as int]);
        match included(world, home, spec.includes[from as int], spec.directory(), seen) {
            Err(e) => {},
            Ok((child, seen_with_child)) => {
                let first = expanded(world, home, child, 0, seen_with_child, (depth - 1) as nat)->0->Ok_0;
                lemma_way_back_is_circular(
                    world,
                    home,
                    spec,
                    from + 1,
                    k,
                    first.seen,
                    depth,
                    canonical,
                );
            },
        }
    }
}

/// The roots up to root `j`, of which only the first `k` entries of its
/// `includes` are left.
pub open spec fn up_to_root_entry(roots: Seq<EnvSpecView>, j: int, k: int) -> Seq<EnvSpecView> {
    roots.take(j).push(up_to_entry(roots[j], k))
}

/// The way back from a root is a circular include: where everything in
/// front of entry `k` of root `j` expands, and that entry leads to a file
/// seen by then, the expansion of the roots ends with `CircularInclude` of
/// that file.
pub proof fn lemma_way_back_from_root(
    world: World,
    home: Option<Seq<char>>,
    roots: Seq<EnvSpecView>,
    cursor: nat,
    j: int,
    k: int,
    seen: Seq<Seq<char>>,
    depth: nat,
    canonical: Seq<char>,
)
    requires
        cursor <= j < roots.len(),
        0 <= k < roots[j].includes.len(),
        expanded_all(world, home, up_to_root_entry(roots, j, k), cursor, seen, depth) matches Some(
            Ok(before),
        ) && before.seen.contains(canonical),
        leads_to(world, home, roots[j], k) == Some(canonical),
    ensures
        expanded_all(world, home, roots, cursor, seen, depth) == Some(
            Err::<Gathered, ErrorView>(ErrorView::CircularInclude(canonical)),
        ),
    decreases j - cursor,
{
    let cut = up_to_root_entry(roots, j, k);
    if cursor < j {
        assert(cut[cursor as int] == roots[cursor as int]);
        let first = expanded(world, home, roots[cursor as int], 0, seen, depth)->0->Ok_0;
        lemma_way_back_from_root(world, home, roots, cursor + 1, j, k, first.seen, depth, canonical);
    } else {
        assert(cut[j] == up_to_entry(roots[j], k));
        let first = expanded(world, home, cut[j], 0, seen, depth)->0->Ok_0;
        assert(expanded_all(world, home, cut, (j + 1) as nat, first.seen, depth) == Some(
            Ok::<Gathered, ErrorView>(Gathered { specs: Seq::empty(), seen: first.seen }),
        ));
        lemma_way_back_is_circular(world, home, roots[j], 0, k, seen, depth, canonical);
    }
}

/// Expanding roots forgets no file.
pub proof fn lemma_expansion_of_all_keeps_seen(
    world: World,
    home: Option<Seq<char>>,
    roots: Seq<EnvSpecView>,
    cursor: nat,
    seen: Seq<Seq<char>>,
    depth: nat,
)
    ensures
        expanded_all(world, home, roots, cursor, seen, depth) matches Some(Ok(all)) ==> still_seen(
            seen,
            all.seen,
        ),
    decreases roots.len() - cursor,
{
    if cursor < roots.len() {
        lemma_expansion_brings_nothing_twice(world, home, roots[cursor as int], 0, seen, depth);
        if let Some(Ok(first)) = expanded(world, home, roots[cursor as int], 0, seen, depth) {
            lemma_expansion_of_all_keeps_seen(world, home, roots, cursor + 1, first.seen, depth);
        }
    }
}

/// The roots of a run: the declarations of the supplied entries, followed
/// by those found in the tree, with the files seen when all are gathered.
/// `None` where gathering them ends with an error.
pub open spec fn gathered_roots(
    world: World,
    start: Seq<char>,
    options: DiscoveryOptionsView,
    home: Option<Seq<char>>,
) -> Option<Gathered> {
    match supplied_loaded(
        world,
        home,
        options.cli_includes + options.env_includes,
        0,
        Seq::empty(),
    ) {
        Err(_) => None,
        Ok(supplied) => match in_tree(
            world,
            start,
            options.no_inherit,
            options.force_inherit,
            supplied.seen,
        ) {
            Err(_) => None,
            Ok(tree) => Some(Gathered { specs: supplied.specs + tree.specs, seen: tree.seen }),
        },
    }
}

/// A file named again is a circular include: where everything in front of
/// entry `k` of root `j` expands, and that entry leads to a file seen by the
/// time the roots are gathered, discovery ends with `CircularInclude` of
/// that file.
pub proof fn lemma_file_named_again_is_circular(
    world: World,
    start: Seq<char>,
    options: DiscoveryOptionsView,
    home: Option<Seq<char>>,
    depth: nat,
    j: int,
    k: int,
    canonical: Seq<char>,
)
    requires
        gathered_roots(world, start, options, home) matches Some(roots) && {
            &&& 0 <= j < roots.specs.len()
            &&& 0 <= k < roots.specs[j].includes.len()
            &&& expanded_all(
                world,
                home,
                up_to_root_entry(roots.specs, j, k),
                0,
                roots.seen,
                depth,
            ) matches Some(Ok(_))
            &&& leads_to(world, home, roots.specs[j], k) == Some(canonical)
            &&& roots.seen.contains(canonical)
        },
    ensures
        discovered(world, start, options, home, depth) == Some(
            Err::<Seq<EnvSpecView>, ErrorView>(ErrorView::CircularInclude(canonical)),
        ),
{
    let roots = gathered_roots(world, start, options, home)->0;
    lemma_expansion_of_all_keeps_seen(
        world,
        home,
        up_to_root_entry(roots.specs, j, k),
        0,
        roots.seen,
        depth,
    );
    lemma_way_back_from_root(world, home, roots.specs, 0, j, k, roots.seen, depth, canonical);
}

/// Whether the file of root `i` is seen when the roots are gathered: a
/// supplied file by the canonical path it was loaded from, a file of the
/// tree by the path it counts by.
pub open spec fn root_seen(world: World, roots: Gathered, i: int) -> bool {
    match roots.specs[i].source_path {
        Some(path) => roots.seen.contains(path) || roots.seen.contains(world.key(path)),
        None => false,
    }
}

/// The files of all roots are seen when the roots are gathered, the
/// starting directory's file and every one above it included; so an entry
/// that leads to the file of any declaration gathered in the run, its own
/// included, is a circular include.
pub proof fn lemma_files_of_roots_are_seen(
    world: World,
    start: Seq<char>,
    options: DiscoveryOptionsView,
    home: Option<Seq<char>>,
)
    ensures
        gathered_roots(world, start, options, home) matches Some(roots) ==> forall|i: int|
            0 <= i < roots.specs.len() ==> #[trigger] root_seen(world, roots, i),
{
    let entries = options.cli_includes + options.env_includes;
    if let Some(roots) = gathered_roots(world, start, options, home) {
        let supplied = supplied_loaded(world, home, entries, 0, Seq::empty())->Ok_0;
        let tree = in_tree(
            world,
            start,
            options.no_inherit,
            options.force_inherit,
            supplied.seen,
        )->Ok_0;
        lemma_supplied_sees_once(world, home, entries, 0, Seq::empty());
        lemma_tree_files_are_seen(
            world,
            start,
            options.no_inherit,
            options.force_inherit,
            supplied.seen,
        );
        assert forall|i: int| 0 <= i < roots.specs.len() implies #[trigger] root_seen(
            world,
            roots,
            i,
        ) by {
            if i < supplied.specs.len() {
                assert(roots.specs[i] == supplied.specs[i]);
                assert(supplied_file_seen(supplied.specs[i], supplied.seen));
            } else {
                assert(roots.specs[i] == tree.specs[i - supplied.specs.len()]);
                assert(crate::tree::tree_file_seen(
                    world,
                    tree.specs[i - supplied.specs.len()],
                    tree.seen,
                ));
            }
        }
    }
}

/// Whether the file of a supplied declaration is among those seen.
pub open spec fn supplied_file_seen(spec: EnvSpecView, seen: Seq<Seq<char>>) -> bool {
    match spec.source_path {
        Some(path) => seen.contains(path),
        None => false,
    }
}

/// Loading the supplied entries sees no file twice, forgets none, and sees
/// the file of every declaration it loads.
pub proof fn lemma_supplied_sees_once(
    world: World,
    home: Option<Seq<char>>,
    supplied: Seq<Seq<char>>,
    position: nat,
    seen: Seq<Seq<char>>,
)
    requires
        seen.no_duplicates(),
    ensures
        supplied_loaded(world, home, supplied, position, seen) matches Ok(loaded)
            ==> loaded.seen.no_duplicates() && still_seen(seen, loaded.seen) && forall|i: int|
            0 <= i < loaded.specs.len() ==> supplied_file_seen(
                #[trigger] loaded.specs[i],
                loaded.seen,
            ),
    decreases supplied.len() - position,
{
    if position < supplied.len() {
        match included(world, home, supplied[position as int], None, seen) {
            Err(e) => {},
            Ok((spec, seen_with_spec)) => {
                let path = spec.source_path->0;
                crate::cycles::lemma_seen_with_keeps(seen, path);
                assert(seen_with_spec == crate::discovery::seen_with(seen, path));
                lemma_supplied_sees_once(world, home, supplied, position + 1, seen_with_spec);
                if let Ok(rest) = supplied_loaded(
                    world,
                    home,
                    supplied,
                    position + 1,
                    seen_with_spec,
                ) {
                    let all = seq![spec] + rest.specs;
                    assert forall|i: int| 0 <= i < all.len() implies supplied_file_seen(
                        #[trigger] all[i],
                        rest.seen,
                    ) by {
                        if i == 0 {
                            assert(seen_with_spec.contains(path));
                        } else {
                            assert(all[i] == rest.specs[i - 1]);
                            assert(supplied_file_seen(rest.specs[i - 1], rest.seen));
                        }
                    }
                }
            },
        }
    }
}

/// Whether the declaration of the file at canonical path `canonical` is
/// among the declarations that an expansion brought in, the one it is the
/// expansion of left aside.
pub open spec fn brought_in(world: World, gathered: Gathered, canonical: Seq<char>) -> bool {
    exists|i: int|
        0 <= i < gathered.specs.len() - 1 && world.declaration(canonical) == Some(
            #[trigger] gathered.specs[i],
        )
}

/// Whether entry `k` of a declaration led somewhere new in an expansion: to
/// a file that was not among those seen before the expansion, and whose
/// declaration the expansion brought in.
pub open spec fn led_on(
    world: World,
    home: Option<Seq<char>>,
    seen: Seq<Seq<char>>,
    gathered: Gathered,
    spec: EnvSpecView,
    k: int,
) -> bool {
    match leads_to(world, home, spec, k) {
        Some(canonical) => !seen.contains(canonical) && brought_in(world, gathered, canonical),
        None => false,
    }
}

/// Whether no entry led back in an expansion: every entry that was taken
/// up, of the declaration expanded and of every declaration brought in, led
/// to a file not seen before the expansion, and the declaration of that file
/// was brought in.
pub open spec fn no_way_back(
    world: World,
    home: Option<Seq<char>>,
    seen: Seq<Seq<char>>,
    spec: EnvSpecView,
    from: nat,
    gathered: Gathered,
) -> bool {
    &&& forall|k: int|
        from <= k < spec.includes.len() ==> #[trigger] led_on(world, home, seen, gathered, spec, k)
    &&& forall|i: int, k: int|
        0 <= i < gathered.specs.len() - 1 && 0 <= k < gathered.specs[i].includes.len()
            ==> #[trigger] led_on(world, home, seen, gathered, gathered.specs[i], k)
}

/// What led on in a part of an expansion led on in the whole: the part lies
/// in the whole from `offset` on and is not its end, and what was seen before
/// the whole was seen before the part.
pub proof fn lemma_led_on_in_whole(
    world: World,
    home: Option<Seq<char>>,
    seen: Seq<Seq<char>>,
    whole: Gathered,
    earlier: Seq<Seq<char>>,
    part: Gathered,
    offset: int,
    spec: EnvSpecView,
    k: int,
)
    requires
        led_on(world, home, earlier, part, spec, k),
        still_seen(seen, earlier),
        0 <= offset,
        offset + part.specs.len() <= whole.specs.len(),
        forall|i: int| 0 <= i < part.specs.len() ==> whole.specs[offset + i] == part.specs[i],
    ensures
        led_on(world, home, seen, whole, spec, k),
{
    let canonical = leads_to(world, home, spec, k)->0;
    let i = choose|i: int|
        0 <= i < part.specs.len() - 1 && world.declaration(canonical) == Some(
            #[trigger] part.specs[i],
        );
    assert(world.declaration(canonical) == Some(whole.specs[offset + i]));
}

/// No entry leads back in an expansion that succeeds: every entry of every
/// declaration in it led to a file that the run had not seen before, and
/// brought that file's declaration in.
pub proof fn lemma_no_way_back(
    world: World,
    home: Option<Seq<char>>,
    spec: EnvSpecView,
    from: nat,
    seen: Seq<Seq<char>>,
    depth: nat,
)
    ensures
        expanded(world, home, spec, from, seen, depth) matches Some(Ok(gathered)) ==> no_way_back(
            world,
            home,
            seen,
            spec,
            from,
            gathered,
        ),
    decreases depth, spec.includes.len() - from,
{
    if from < spec.includes.len() && depth > 0 {
        if let Ok((child, seen_with_child)) = included(
            world,
            home,
            spec.includes[from as int],
            spec.directory(),
            seen,
        ) {
            let deeper = (depth - 1) as nat;
            lemma_no_way_back(world, home, child, 0, seen_with_child, deeper);
            lemma_expansion_brings_nothing_twice(world, home, child, 0, seen_with_child, deeper);
            if let Some(Ok(first)) = expanded(world, home, child, 0, seen_with_child, deeper) {
                lemma_no_way_back(world, home, spec, from + 1, first.seen, depth);
                lemma_expansion_brings_nothing_twice(
                    world,
                    home,
                    spec,
                    from + 1,
                    first.seen,
                    depth,
                );
                if let Some(Ok(rest)) = expanded(world, home, spec, from + 1, first.seen, depth) {
                    let path = child.source_path->0;
                    let whole = Gathered { specs: first.specs + rest.specs, seen: rest.seen };
                    let n = first.specs.len() as int;
                    assert(seen_with_child == seen.push(path));
                    assert forall|p: Seq<char>| seen.contains(p) implies seen_with_child.contains(
                        p,
                    ) by {
                        let i = choose|i: int| 0 <= i < seen.len() && seen[i] == p;
                        assert(seen_with_child[i] == p);
                    }
                    assert(still_seen(seen, seen_with_child));
                    assert(still_seen(seen, first.seen)) by {
                        assert forall|p: Seq<char>| seen.contains(p) implies first.seen.contains(
                            p,
                        ) by {
                            assert(seen_with_child.contains(p));
                        }
                    }
                    assert forall|i: int| 0 <= i < first.specs.len() implies whole.specs[0 + i]
                        == first.specs[i] by {}
                    assert forall|i: int| 0 <= i < rest.specs.len() implies whole.specs[n + i]
                        == rest.specs[i] by {}
                    assert forall|k: int| from <= k < spec.includes.len() implies #[trigger] led_on(
                        world,
                        home,
                        seen,
                        whole,
                        spec,
                        k,
                    ) by {
                        if k == from {
                            assert(leads_to(world, home, spec, k) == Some(path));
                            assert(world.declaration(path) == Some(whole.specs[n - 1]));
                        } else {
                            assert(led_on(world, home, first.seen, rest, spec, k));
                            lemma_led_on_in_whole(
                                world,
                                home,
                                seen,
                                whole,
                                first.seen,
                                rest,
                                n,
                                spec,
                                k,
                            );
                        }
                    }
                    assert forall|i: int, k: int|
                        0 <= i < whole.specs.len() - 1 && 0 <= k < whole.specs[i].includes.len() implies #[trigger] led_on(
                        world,
                        home,
                        seen,
                        whole,
                        whole.specs[i],
                        k,
                    ) by {
                        if i < n - 1 {
                            assert(whole.specs[i] == first.specs[i]);
                            assert(led_on(world, home, seen_with_child, first, first.specs[i], k));
                            lemma_led_on_in_whole(
                                world,
                                home,
                                seen,
                                whole,
                                seen_with_child,
                                first,
                                0,
                                first.specs[i],
                                k,
                            );
                        } else if i == n - 1 {
                            assert(whole.specs[i] == first.specs[i]);
                            assert(whole.specs[i] == child);
                            assert(led_on(world, home, seen_with_child, first, child, k));
                            lemma_led_on_in_whole(
                                world,
                                home,
                                seen,
                                whole,
                                seen_with_child,
                                first,
                                0,
                                child,
                                k,
                            );
                        } else {
                            assert(whole.specs[i] == rest.specs[i - n]);
                            assert(led_on(world, home, first.seen, rest, rest.specs[i - n], k));
                            lemma_led_on_in_whole(
                                world,
                                home,
                                seen,
                                whole,
                                first.seen,
                                rest,
                                n,
                                rest.specs[i - n],
                                k,
                            );
                        }
                    }
                }
            }
        }
    }
}

/// Whether some entry of `spec`, from entry `from` on, leads to the file at
/// canonical path `canonical`.
pub open spec fn names(
    world: World,
    home: Option<Seq<char>>,
    spec: EnvSpecView,
    from: nat,
    canonical: Seq<char>,
) -> bool {
    exists|k: int|
        from <= k < spec.includes.len() && #[trigger] leads_to(world, home, spec, k) == Some(
            canonical,
        )
}

/// The file that follows file `i` of a cycle.
pub open spec fn successor(cycle: Seq<Seq<char>>, i: int) -> Seq<char> {
    if i + 1 < cycle.len() {
        cycle[i + 1]
    } else {
        cycle[0]
    }
}

/// Whether the files of `cycle`, given by their canonical paths, include
/// each other in a circle that begins with the declaration `first`: `first`
/// names the second file, the declaration of each further file names the
/// file after it, and the last names the first. A cycle of one file is a
/// declaration that names itself.
pub open spec fn is_cycle(
    world: World,
    home: Option<Seq<char>>,
    first: EnvSpecView,
    from: nat,
    cycle: Seq<Seq<char>>,
) -> bool {
    &&& cycle.len() >= 1
    &&& names(world, home, first, from, successor(cycle, 0))
    &&& forall|i: int| 1 <= i < cycle.len() ==> #[trigger] link(world, home, cycle, i)
}

/// Whether file `i` of a cycle has a declaration, and that declaration
/// names the file after it.
pub open spec fn link(world: World, home: Option<Seq<char>>, cycle: Seq<Seq<char>>, i: int) -> bool {
    match world.declaration(cycle[i]) {
        Some(d) => names(world, home, d, 0, successor(cycle, i)),
        None => false,
    }
}

/// In an expansion that succeeds, the declarations of all files of a cycle
/// behind the first would have been brought in.
proof fn lemma_cycle_is_brought_in(
    world: World,
    home: Option<Seq<char>>,
    spec: EnvSpecView,
    from: nat,
    seen: Seq<Seq<char>>,
    gathered: Gathered,
    cycle: Seq<Seq<char>>,
    i: int,
)
    requires
        no_way_back(world, home, seen, spec, from, gathered),
        is_cycle(world, home, spec, from, cycle),
        1 <= i < cycle.len(),
    ensures
        brought_in(world, gathered, cycle[i]),
    decreases i,
{
    if i == 1 {
        let k = choose|k: int|
            from <= k < spec.includes.len() && #[trigger] leads_to(world, home, spec, k) == Some(
                successor(cycle, 0),
            );
        assert(led_on(world, home, seen, gathered, spec, k));
    } else {
        lemma_cycle_is_brought_in(world, home, spec, from, seen, gathered, cycle, i - 1);
        let m = choose|m: int|
            0 <= m < gathered.specs.len() - 1 && world.declaration(cycle[i - 1]) == Some(
                #[trigger] gathered.specs[m],
            );
        let d = gathered.specs[m];
        assert(link(world, home, cycle, i - 1));
        let k = choose|k: int|
            0 <= k < d.includes.len() && #[trigger] leads_to(world, home, d, k) == Some(
                successor(cycle, i - 1),
            );
        assert(led_on(world, home, seen, gathered, gathered.specs[m], k));
    }
}

/// Circular includes never expand, whatever the length of the cycle: where
/// the files of a cycle include each other in a circle that begins with a
/// declaration whose own file the run has seen, the expansion of that
/// declaration does not succeed.
pub proof fn lemma_cycle_never_expands(
    world: World,
    home: Option<Seq<char>>,
    spec: EnvSpecView,
    from: nat,
    seen: Seq<Seq<char>>,
    depth: nat,
    cycle: Seq<Seq<char>>,
)
    requires
        is_cycle(world, home, spec, from, cycle),
        seen.contains(cycle[0]),
    ensures
        !(expanded(world, home, spec, from, seen, depth) matches Some(Ok(_))),
{
    if let Some(Ok(gathered)) = expanded(world, home, spec, from, seen, depth) {
        lemma_no_way_back(world, home, spec, from, seen, depth);
        let n = cycle.len() as int;
        if n == 1 {
            let k = choose|k: int|
                from <= k < spec.includes.len() && #[trigger] leads_to(world, home, spec, k)
                    == Some(successor(cycle, 0));
            assert(led_on(world, home, seen, gathered, spec, k));
        } else {
            lemma_cycle_is_brought_in(world, home, spec, from, seen, gathered, cycle, n - 1);
            let m = choose|m: int|
                0 <= m < gathered.specs.len() - 1 && world.declaration(cycle[n - 1]) == Some(
                    #[trigger] gathered.specs[m],
                );
            let d = gathered.specs[m];
            assert(link(world, home, cycle, n - 1));
            let k = choose|k: int|
                0 <= k < d.includes.len() && #[trigger] leads_to(world, home, d, k) == Some(
                    successor(cycle, n - 1),
                );
            assert(led_on(world, home, seen, gathered, gathered.specs[m], k));
        }
    }
}

/// Where the expansion of the roots succeeds, so does that of each root,
/// begun with no less seen than there was at the start.
pub proof fn lemma_root_expands(
    world: World,
    home: Option<Seq<char>>,
    roots: Seq<EnvSpecView>,
    cursor: nat,
    j: int,
    seen: Seq<Seq<char>>,
    depth: nat,
) -> (at: Seq<Seq<char>>)
    requires
        expanded_all(world, home, roots, cursor, seen, depth) matches Some(Ok(_)),
        cursor <= j < roots.len(),
    ensures
        still_seen(seen, at),
        expanded(world, home, roots[j], 0, at, depth) matches Some(Ok(_)),
    decreases j - cursor,
{
    if cursor == j {
        seen
    } else {
        let first = expanded(world, home, roots[cursor as int], 0, seen, depth)->0->Ok_0;
        lemma_expansion_brings_nothing_twice(world, home, roots[cursor as int], 0, seen, depth);
        let at = lemma_root_expands(world, home, roots, cursor + 1, j, first.seen, depth);
        assert forall|p: Seq<char>| seen.contains(p) implies at.contains(p) by {
            assert(first.seen.contains(p));
        }
        at
    }
}

/// Discovery never returns a result through a cycle: where the files of a
/// cycle include each other in a circle that begins with a declaration
/// gathered in the run, supplied or found in the tree, whose file the run
/// has seen by the time the roots are gathered, as it has the file of every
/// root, the run ends with an error, whatever the length of the cycle.
pub proof fn lemma_discovery_never_returns_through_a_cycle(
    world: World,
    start: Seq<char>,
    options: DiscoveryOptionsView,
    home: Option<Seq<char>>,
    depth: nat,
    j: int,
    cycle: Seq<Seq<char>>,
)
    requires
        gathered_roots(world, start, options, home) matches Some(roots) && {
            &&& 0 <= j < roots.specs.len()
            &&& is_cycle(world, home, roots.specs[j], 0, cycle)
            &&& roots.seen.contains(cycle[0])
        },
    ensures
        !(discovered(world, start, options, home, depth) matches Some(Ok(_))),
{
    let roots = gathered_roots(world, start, options, home)->0;
    if let Some(Ok(all)) = expanded_all(world, home, roots.specs, 0, roots.seen, depth) {
        let at = lemma_root_expands(world, home, roots.specs, 0, j, roots.seen, depth);
        assert(at.contains(cycle[0]));
        lemma_cycle_never_expands(world, home, roots.specs[j], 0, at, depth, cycle);
    }
}

} // verus!
