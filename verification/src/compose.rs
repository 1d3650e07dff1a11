//! Merging an ordered list of declarations into one environment.

use vstd::prelude::*;
use crate::bind::{binds_view, extend_binds, BindMount, BindMountView};
use crate::declaration::{
    clone_options,
    opt_options,
    specs_view,
    EnvSpec,
    EnvSpecView,
    PackageOptions,
    PackageOptionsView,
};
use crate::environment::{extend_ops, ops_view, EnvOp, EnvOpView};
use crate::text::{extend_texts, texts};

verus! {

/// The environment that a list of declarations adds up to.
#[derive(Debug, PartialEq, Eq)]
pub struct ComposedEnvironment {
    /// Layer references of all declarations, in order.
    pub layers: Vec<String>,
    /// Environment operations of all declarations, in order.
    pub environment: Vec<EnvOp>,
    /// Bind mounts of all declarations, in order.
    pub contents: Vec<BindMount>,
    /// Package requests of all declarations, in order.
    pub packages: Vec<String>,
    /// The package options of the last declaration that has any.
    pub package_options: Option<PackageOptions>,
    /// The files of the declarations that were loaded from one, in order.
    pub source_files: Vec<String>,
}

/// The mathematical value of a [`ComposedEnvironment`].
pub struct ComposedView {
    pub layers: Seq<Seq<char>>,
    pub environment: Seq<EnvOpView>,
    pub contents: Seq<BindMountView>,
    pub packages: Seq<Seq<char>>,
    pub package_options: Option<PackageOptionsView>,
    pub source_files: Seq<Seq<char>>,
}

impl View for ComposedEnvironment {
    type V = ComposedView;

    open spec fn view(&self) -> ComposedView {
        ComposedView {
            layers: texts(self.layers@),
            environment: ops_view(self.environment@),
            contents: binds_view(self.contents@),
            packages: texts(self.packages@),
            package_options: opt_options(self.package_options),
            source_files: texts(self.source_files@),
        }
    }
}

impl ComposedView {
    /// The environment of no declarations.
    pub open spec fn empty() -> ComposedView {
        ComposedView {
            layers: Seq::empty(),
            environment: Seq::empty(),
            contents: Seq::empty(),
            packages: Seq::empty(),
            package_options: None,
            source_files: Seq::empty(),
        }
    }

    /// What a single declaration contributes.
    pub open spec fn of(spec: EnvSpecView) -> ComposedView {
        ComposedView {
            layers: spec.layers,
            environment: spec.environment,
            contents: spec.contents,
            packages: spec.packages,
            package_options: spec.package_options,
            source_files: match spec.source_path {
                Some(p) => seq![p],
                None => Seq::empty(),
            },
        }
    }

    /// `later` layered on top of `self`: every list is the two lists one
    /// after the other, and the package options are those of `later` where it
    /// has any.
    pub open spec fn stacked(self, later: ComposedView) -> ComposedView {
        ComposedView {
            layers: self.layers + later.layers,
            environment: self.environment + later.environment,
            contents: self.contents + later.contents,
            packages: self.packages + later.packages,
            package_options: if later.package_options is Some {
                later.package_options
            } else {
                self.package_options
            },
            source_files: self.source_files + later.source_files,
        }
    }
}

/// The environment that `specs` add up to, earlier declarations below later ones.
pub open spec fn composed(specs: Seq<EnvSpecView>) -> ComposedView
    decreases specs.len(),
{
    if specs.len() == 0 {
        ComposedView::empty()
    } else {
        composed(specs.drop_last()).stacked(ComposedView::of(specs.last()))
    }
}

/// The layer lists of `specs` written one after another.
pub open spec fn all_layers(specs: Seq<EnvSpecView>) -> Seq<Seq<char>> {
    specs.map_values(|s: EnvSpecView| s.layers).flatten()
}

/// Layering is associative, and the empty environment is neutral for it.
pub proof fn lemma_stacking_associative(a: ComposedView, b: ComposedView, c: ComposedView)
    ensures
        a.stacked(b).stacked(c) == a.stacked(b.stacked(c)),
        ComposedView::empty().stacked(a) == a,
        a.stacked(ComposedView::empty()) == a,
{
    let l = a.stacked(b).stacked(c);
    let r = a.stacked(b.stacked(c));
    assert(l.layers =~= r.layers);
    assert(l.environment =~= r.environment);
    assert(l.contents =~= r.contents);
    assert(l.packages =~= r.packages);
    assert(l.source_files =~= r.source_files);
    let e = ComposedView::empty().stacked(a);
    assert(e.layers =~= a.layers);
    assert(e.environment =~= a.environment);
    assert(e.contents =~= a.contents);
    assert(e.packages =~= a.packages);
    assert(e.source_files =~= a.source_files);
    let f = a.stacked(ComposedView::empty());
    assert(f.layers =~= a.layers);
    assert(f.environment =~= a.environment);
    assert(f.contents =~= a.contents);
    assert(f.packages =~= a.packages);
    assert(f.source_files =~= a.source_files);
}

/// Composing a list and layering one more declaration on top of it gives the
/// composition of the longer list.
pub proof fn lemma_compose_push(specs: Seq<EnvSpecView>, last: EnvSpecView)
    ensures
        composed(specs.push(last)) == composed(specs).stacked(ComposedView::of(last)),
{
    assert(specs.push(last).drop_last() =~= specs);
}

/// Composition distributes over concatenation: composing two lists one after
/// the other is composing each and layering the second result on the first.
pub proof fn lemma_compose_concat(first: Seq<EnvSpecView>, second: Seq<EnvSpecView>)
    ensures
        composed(first + second) == composed(first).stacked(composed(second)),
    decreases second.len(),
{
    if second.len() == 0 {
        assert(first + second =~= first);
        lemma_stacking_associative(composed(first), ComposedView::empty(), ComposedView::empty());
    } else {
        let init = second.drop_last();
        let last = ComposedView::of(second.last());
        assert((first + second).drop_last() =~= first + init);
        assert((first + second).last() == second.last());
        lemma_compose_concat(first, init);
        lemma_stacking_associative(composed(first), composed(init), last);
    }
}

/// Composition keeps every layer reference of every declaration, duplicates
/// included, in list order.
pub proof fn lemma_compose_keeps_layers(specs: Seq<EnvSpecView>)
    ensures
        composed(specs).layers == all_layers(specs),
    decreases specs.len(),
{
    let lists = specs.map_values(|s: EnvSpecView| s.layers);
    if specs.len() == 0 {
        assert(lists =~= Seq::empty());
        assert(all_layers(specs) =~= Seq::empty());
    } else {
        let init = specs.drop_last();
        lemma_compose_keeps_layers(init);
        assert(lists.drop_last() =~= init.map_values(|s: EnvSpecView| s.layers));
        lists.lemma_flatten_and_flatten_alt_are_equivalent();
        lists.drop_last().lemma_flatten_and_flatten_alt_are_equivalent();
        assert(lists.last() == specs.last().layers);
    }
}

impl ComposedEnvironment {
    /// An environment with nothing in it.
    pub fn new() -> (env: Self)
        ensures
            env@ == ComposedView::empty(),
    {
        let env = ComposedEnvironment {
            layers: Vec::new(),
            environment: Vec::new(),
            contents: Vec::new(),
            packages: Vec::new(),
            package_options: None,
            source_files: Vec::new(),
        };
        proof {
            assert(texts(env.layers@) =~= Seq::empty());
            assert(texts(env.packages@) =~= Seq::empty());
            assert(texts(env.source_files@) =~= Seq::empty());
            assert(ops_view(env.environment@) =~= Seq::empty());
            assert(binds_view(env.contents@) =~= Seq::empty());
        }
        env
    }

    /// Whether the environment has any layer.
    pub fn has_layers(&self) -> (some: bool)
        ensures
            some == (self@.layers.len() > 0),
    {
        self.layers.len() > 0
    }

    /// The number of files that contributed to the environment.
    pub fn source_count(&self) -> (count: usize)
        ensures
            count == self@.source_files.len(),
    {
        self.source_files.len()
    }

    /// Layers `spec` on top of this environment.
    pub fn layer(&mut self, spec: &EnvSpec)
        ensures
            final(self)@ == old(self)@.stacked(ComposedView::of(spec@)),
    {
        extend_texts(&mut self.layers, &spec.layers);
        extend_ops(&mut self.environment, &spec.environment);
        extend_binds(&mut self.contents, &spec.contents);
        extend_texts(&mut self.packages, &spec.packages);
        if spec.package_options.is_some() {
            self.package_options = clone_options(&spec.package_options);
        }
        let ghost before = self.source_files@;
        match &spec.source_path {
            Some(path) => {
                self.source_files.push(path.clone());
                assert(texts(self.source_files@) =~= texts(before) + seq![path@]);
            },
            None => {
                assert(texts(self.source_files@) =~= texts(before) + Seq::empty());
            },
        }
    }
}

impl Default for ComposedEnvironment {
    fn default() -> (env: Self)
        ensures
            env@ == ComposedView::empty(),
    {
        ComposedEnvironment::new()
    }
}

/// Composes `specs` into one environment.
///
/// The declarations are taken in order, later ones on top of earlier ones:
/// layers, environment operations, bind mounts and package requests are
/// concatenated without removing or reordering anything, the package options
/// are those of the last declaration that has any, and the source files are
/// those of the declarations that were loaded from a file.
pub fn compose_specs(specs: &[EnvSpec]) -> (env: ComposedEnvironment)
    ensures
        env@ == composed(specs_view(specs@)),
{
    let mut env = ComposedEnvironment::new();
    let mut i: usize = 0;
    while i < specs.len()
        invariant
            i <= specs.len(),
            env@ == composed(specs_view(specs@).take(i as int)),
        decreases specs.len() - i,
    {
        proof {
            let all = specs_view(specs@);
            assert(all.take(i + 1).drop_last() =~= all.take(i as int));
            assert(all.take(i + 1).last() == specs[i as int]@);
        }
        env.layer(&specs[i]);
        i = i + 1;
    }
    proof {
        assert(specs_view(specs@).take(specs.len() as int) =~= specs_view(specs@));
    }
    env
}

} // verus!
