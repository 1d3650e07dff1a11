//! What package resolution is asked to do.

use vstd::prelude::*;
use crate::declaration::{PackageOptions, PackageOptionsView};
use crate::error::{Error, ErrorView};
use crate::text::{clone_texts, texts};

verus! {

/// The solver that resolves package requests.
#[derive(Debug, Clone, Copy, PartialEq, Eq, Structural)]
pub enum Solver {
    Step,
    Resolvo,
}

/// A resolution to run: the solver, its mode and the requests, in order.
#[derive(Debug, PartialEq, Eq)]
pub struct Resolution {
    pub solver: Solver,
    pub binary_only: bool,
    pub packages: Vec<String>,
}

/// The mathematical value of a [`Resolution`].
pub struct ResolutionView {
    pub solver: Solver,
    pub binary_only: bool,
    pub packages: Seq<Seq<char>>,
}

impl View for Resolution {
    type V = ResolutionView;

    open spec fn view(&self) -> ResolutionView {
        ResolutionView {
            solver: self.solver,
            binary_only: self.binary_only,
            packages: texts(self.packages@),
        }
    }
}

/// The message of the error for resolving no packages.
pub open spec fn no_packages_message() -> Seq<char> {
    "No packages specified in packages:[]"@
}

/// The message of the error for a solver that does not exist.
pub open spec fn unknown_solver_message(name: Seq<char>) -> Seq<char> {
    "Unknown solver: "@ + name + " (expected 'step' or 'resolvo')"@
}

/// The solver that `name` stands for: the step solver where none is named.
pub open spec fn solver_named(name: Option<Seq<char>>) -> Option<Solver> {
    match name {
        None => Some(Solver::Step),
        Some(n) => if n == "resolvo"@ {
            Some(Solver::Resolvo)
        } else if n == "step"@ {
            Some(Solver::Step)
        } else {
            None
        },
    }
}

/// The resolution that `packages` and `options` ask for, or why there is none.
pub open spec fn resolution_of(packages: Seq<Seq<char>>, options: PackageOptionsView) -> Result<
    ResolutionView,
    ErrorView,
> {
    if packages.len() == 0 {
        Err(ErrorView::ValidationFailed(no_packages_message()))
    } else {
        match solver_named(options.solver) {
            Some(solver) => Ok(
                ResolutionView { solver, binary_only: options.binary_only, packages },
            ),
            None => Err(
                ErrorView::ValidationFailed(unknown_solver_message(options.solver->0)),
            ),
        }
    }
}

/// The mathematical value of a resolution or the error in its place.
pub open spec fn resolution_result(r: Result<Resolution, Error>) -> Result<
    ResolutionView,
    ErrorView,
> {
    match r {
        Ok(x) => Ok(x@),
        Err(e) => Err(e@),
    }
}

/// Says what resolving `packages` under `options` means: which solver runs,
/// in which mode, on which requests.
///
/// Fails where there is no package to resolve, and where the options name a
/// solver other than `step` and `resolvo`.
pub fn resolve_packages(packages: &Vec<String>, options: &PackageOptions) -> (out: Result<
    Resolution,
    Error,
>)
    ensures
        resolution_result(out) == resolution_of(texts(packages@), options@),
{
    if packages.len() == 0 {
        return Err(
            Error::ValidationFailed("No packages specified in packages:[]".to_owned()),
        );
    }
    let solver = match &options.solver {
        None => Solver::Step,
        Some(name) => {
            if *name == "resolvo".to_owned() {
                Solver::Resolvo
            } else if *name == "step".to_owned() {
                Solver::Step
            } else {
                let mut message = "Unknown solver: ".to_owned();
                message.append(name.as_str());
                message.append(" (expected 'step' or 'resolvo')");
                assert(message@ =~= unknown_solver_message(name@));
                return Err(Error::ValidationFailed(message));
            }
        },
    };
    Ok(Resolution { solver, binary_only: options.binary_only, packages: clone_texts(packages) })
}

} // verus!
