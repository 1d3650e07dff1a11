//! What a runtime for a composed environment consists of.
//!
//! Building the runtime is the layer store's work. What is decided here is
//! what it is built from: which layers, which bind mounts and relative to
//! what, whether it is editable, and which startup script it gets.

use vstd::prelude::*;
use crate::bind::{binds_view, clone_binds, BindMount, BindMountView};
use crate::compose::{ComposedEnvironment, ComposedView};
use crate::environment::{
    generate_startup_script,
    get_priority,
    priority_of,
    script_text,
};
use crate::error::{Error, ErrorView};
use crate::path::{parent, parent_of};
use crate::repository::{RepoSelection, RepoSelectionView};
use crate::text::{clone_texts, decimal, opt_text, texts, to_decimal};

verus! {

/// Where startup scripts are read from inside a runtime.
pub const STARTUP_FILES_LOCATION: &'static str = "/spfs/etc/spfs/startup.d";

/// The directory of startup scripts, relative to the root of a runtime.
pub const STARTUP_DIRECTORY: &'static str = "etc/spfs/startup.d";

/// How a runtime is to be created.
#[derive(Debug, PartialEq, Eq)]
pub struct RuntimeOptions {
    /// Name of the runtime.
    pub name: Option<String>,
    /// Keep the runtime after its command has ended.
    pub keep: bool,
    /// Allow writes inside the runtime.
    pub editable: bool,
    /// Which package repositories to use.
    pub repo_selection: RepoSelection,
}

/// The mathematical value of [`RuntimeOptions`].
pub struct RuntimeOptionsView {
    pub name: Option<Seq<char>>,
    pub keep: bool,
    pub editable: bool,
    pub repo_selection: RepoSelectionView,
}

impl View for RuntimeOptions {
    type V = RuntimeOptionsView;

    open spec fn view(&self) -> RuntimeOptionsView {
        RuntimeOptionsView {
            name: opt_text(self.name),
            keep: self.keep,
            editable: self.editable,
            repo_selection: self.repo_selection@,
        }
    }
}

impl Default for RuntimeOptions {
    fn default() -> (options: Self)
        ensures
            options@ == (RuntimeOptionsView {
                name: None,
                keep: false,
                editable: false,
                repo_selection: RepoSelectionView {
                    enable_repo: Seq::empty(),
                    disable_repo: Seq::empty(),
                    no_local_repo: false,
                    local_repo_only: false,
                },
            }),
    {
        RuntimeOptions {
            name: None,
            keep: false,
            editable: false,
            repo_selection: RepoSelection::default(),
        }
    }
}

/// The startup script of a runtime.
#[derive(Debug, PartialEq, Eq)]
pub struct StartupScript {
    /// File name below the directory of startup scripts.
    pub name: String,
    /// The script.
    pub text: String,
}

/// The mathematical value of a [`StartupScript`].
pub struct StartupScriptView {
    pub name: Seq<char>,
    pub text: Seq<char>,
}

impl View for StartupScript {
    type V = StartupScriptView;

    open spec fn view(&self) -> StartupScriptView {
        StartupScriptView { name: self.name@, text: self.text@ }
    }
}

/// What a runtime is built from.
#[derive(Debug, PartialEq, Eq)]
pub struct RuntimePlan {
    pub name: Option<String>,
    pub keep: bool,
    /// Whether the runtime allows writes.
    pub editable: bool,
    /// The directory that relative bind sources are taken below; present
    /// exactly where there are bind mounts.
    pub bind_base: Option<String>,
    /// The bind mounts of the runtime's live layer, in order.
    pub binds: Vec<BindMount>,
    /// The layer references to resolve and stack, in order.
    pub layers: Vec<String>,
    /// The startup script, stacked on top of the layers.
    pub startup: Option<StartupScript>,
}

/// The mathematical value of a [`RuntimePlan`].
pub struct RuntimePlanView {
    pub name: Option<Seq<char>>,
    pub keep: bool,
    pub editable: bool,
    pub bind_base: Option<Seq<char>>,
    pub binds: Seq<BindMountView>,
    pub layers: Seq<Seq<char>>,
    pub startup: Option<StartupScriptView>,
}

impl View for RuntimePlan {
    type V = RuntimePlanView;

    open spec fn view(&self) -> RuntimePlanView {
        RuntimePlanView {
            name: opt_text(self.name),
            keep: self.keep,
            editable: self.editable,
            bind_base: opt_text(self.bind_base),
            binds: binds_view(self.binds@),
            layers: texts(self.layers@),
            startup: match self.startup {
                Some(s) => Some(s@),
                None => None,
            },
        }
    }
}

/// A priority in decimal, with at least two digits.
pub open spec fn two_digits(priority: u8) -> Seq<char> {
    if priority < 10 {
        "0"@ + decimal(priority as nat)
    } else {
        decimal(priority as nat)
    }
}

/// The file name of the startup script of a given priority.
pub open spec fn script_name(priority: u8) -> Seq<char> {
    two_digits(priority) + "_spenv.sh"@
}

/// The file name of the startup script of priority `priority`: the priority
/// in decimal, with at least two digits, followed by `_spenv.sh`. Scripts
/// run in the order of their names.
pub fn startup_script_name(priority: u8) -> (name: String)
    ensures
        name@ == script_name(priority),
{
    let mut name = String::new();
    if priority < 10 {
        name.append("0");
    }
    name.append(to_decimal(priority as usize).as_str());
    name.append("_spenv.sh");
    proof {
        assert(name@ =~= script_name(priority));
    }
    name
}

/// The message of the error for bind mounts without a declaration file to
/// be relative to.
pub open spec fn no_bind_base_message() -> Seq<char> {
    "No source files available to resolve bind mounts"@
}

/// The directory that the bind mounts of `env` are relative to: that of its
/// first source file.
pub open spec fn bind_base_of(env: ComposedView) -> Option<Seq<char>> {
    if env.source_files.len() > 0 {
        parent_of(env.source_files[0])
    } else {
        None
    }
}

/// What the runtime of `env` is built from under `options`, or why it
/// cannot be built.
pub open spec fn runtime_plan(env: ComposedView, options: RuntimeOptionsView) -> Result<
    RuntimePlanView,
    ErrorView,
> {
    if env.contents.len() > 0 && bind_base_of(env) is None {
        Err(ErrorView::ValidationFailed(no_bind_base_message()))
    } else {
        Ok(
            RuntimePlanView {
                name: options.name,
                keep: options.keep,
                editable: options.editable || env.layers.len() == 0,
                bind_base: if env.contents.len() > 0 {
                    bind_base_of(env)
                } else {
                    None
                },
                binds: env.contents,
                layers: env.layers,
                startup: if env.environment.len() > 0 {
                    Some(
                        StartupScriptView {
                            name: script_name(priority_of(env.environment)),
                            text: script_text(env.environment),
                        },
                    )
                } else {
                    None
                },
            },
        )
    }
}

/// The mathematical value of a plan or the error in its place.
pub open spec fn plan_result(r: Result<RuntimePlan, Error>) -> Result<RuntimePlanView, ErrorView> {
    match r {
        Ok(p) => Ok(p@),
        Err(e) => Err(e@),
    }
}

/// Says what the runtime of `composed` is built from.
///
/// Bind mounts are taken relative to the directory of the first source
/// file, and cannot be had without one. A runtime without layers is
/// editable whatever the options say. Where there are environment
/// operations, their script is stacked last, under a name that sorts by
/// their priority.
pub fn create_runtime(composed: &ComposedEnvironment, options: &RuntimeOptions) -> (out: Result<
    RuntimePlan,
    Error,
>)
    ensures
        plan_result(out) == runtime_plan(composed@, options@),
{
    let bind_base = if composed.contents.len() > 0 {
        let base = if composed.source_files.len() > 0 {
            parent(composed.source_files[0].as_str())
        } else {
            None
        };
        if base.is_none() {
            return Err(
                Error::ValidationFailed(
                    "No source files available to resolve bind mounts".to_owned(),
                ),
            );
        }
        base
    } else {
        None
    };
    let startup = if composed.environment.len() > 0 {
        let text = generate_startup_script(composed.environment.as_slice());
        let priority = get_priority(composed.environment.as_slice());
        Some(StartupScript { name: startup_script_name(priority), text })
    } else {
        None
    };
    Ok(
        RuntimePlan {
            name: options.name.clone(),
            keep: options.keep,
            editable: options.editable || composed.layers.len() == 0,
            bind_base,
            binds: clone_binds(&composed.contents),
            layers: clone_texts(&composed.layers),
            startup,
        },
    )
}

/// The error for a layer reference that nothing is known by.
pub open spec fn unknown_layer(reference: Seq<char>) -> ErrorView {
    ErrorView::UnknownLayer { reference, similar: Seq::empty() }
}

/// The digest that a layer reference stands for.
///
/// `digest` is the reference read as a digest, where it is one; `tag` is the
/// digest that the layer store has under the reference as a tag, where it is
/// a tag that the store knows. A reference that is a digest stands for
/// itself, whatever the store has; one that is neither is unknown.
pub fn resolve_layer_reference(reference: &str, digest: Option<String>, tag: Option<String>) -> (out:
    Result<String, Error>)
    ensures
        match digest {
            Some(d) => out matches Ok(r) && r@ == d@,
            None => match tag {
                Some(t) => out matches Ok(r) && r@ == t@,
                None => out matches Err(e) && e@ == unknown_layer(reference@),
            },
        },
{
    match digest {
        Some(d) => Ok(d),
        None => match tag {
            Some(t) => Ok(t),
            None => {
                let similar: Vec<String> = Vec::new();
                assert(texts(similar@) =~= Seq::empty());
                Err(Error::UnknownLayer { reference: reference.to_owned(), similar })
            },
        },
    }
}

} // verus!
