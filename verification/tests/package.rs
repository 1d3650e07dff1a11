use spenv::declaration::PackageOptions;
use spenv::error::Error;
use spenv::package::{resolve_packages, Resolution, Solver};
use spenv::repository::{resolve_spk_repositories, RepoPlan, RepoSelection};

fn options_with(solver: Option<&str>, binary_only: bool) -> PackageOptions {
    PackageOptions { binary_only, repositories: Vec::new(), solver: solver.map(String::from) }
}

#[test]
fn no_packages_is_an_error() {
    assert_eq!(
        resolve_packages(&Vec::new(), &options_with(None, true)),
        Err(Error::ValidationFailed("No packages specified in packages:[]".to_string()))
    );
    assert_eq!(
        resolve_packages(&Vec::new(), &options_with(Some("bogus"), true)),
        Err(Error::ValidationFailed("No packages specified in packages:[]".to_string()))
    );
}

#[test]
fn solver_is_chosen_by_name() {
    let packages = vec!["python/3.11".to_string(), "cmake/3.26".to_string()];
    assert_eq!(
        resolve_packages(&packages, &options_with(None, true)),
        Ok(Resolution { solver: Solver::Step, binary_only: true, packages: packages.clone() })
    );
    assert_eq!(
        resolve_packages(&packages, &options_with(Some("step"), false)),
        Ok(Resolution { solver: Solver::Step, binary_only: false, packages: packages.clone() })
    );
    assert_eq!(
        resolve_packages(&packages, &options_with(Some("resolvo"), true)),
        Ok(Resolution { solver: Solver::Resolvo, binary_only: true, packages: packages.clone() })
    );
}

#[test]
fn unknown_solver_is_an_error() {
    let packages = vec!["python/3.11".to_string()];
    assert_eq!(
        resolve_packages(&packages, &options_with(Some("magic"), true)),
        Err(Error::ValidationFailed(
            "Unknown solver: magic (expected 'step' or 'resolvo')".to_string()
        ))
    );
}

#[test]
fn default_selection_opens_local_and_origin() {
    assert_eq!(
        resolve_spk_repositories(&RepoSelection::default()),
        RepoPlan { local_first: true, named: vec!["origin".to_string()] }
    );
}

#[test]
fn selection_orders_and_filters() {
    let selection = RepoSelection {
        enable_repo: vec!["staging".to_string(), "local".to_string(), "scratch".to_string()],
        disable_repo: vec!["scratch".to_string(), "origin".to_string()],
        no_local_repo: false,
        local_repo_only: false,
    };
    assert_eq!(
        resolve_spk_repositories(&selection),
        RepoPlan { local_first: true, named: vec!["staging".to_string(), "local".to_string()] }
    );
}

#[test]
fn local_can_be_left_out_or_alone() {
    let mut selection = RepoSelection::default();
    selection.no_local_repo = true;
    assert_eq!(
        resolve_spk_repositories(&selection),
        RepoPlan { local_first: false, named: vec!["origin".to_string()] }
    );
    selection.no_local_repo = false;
    selection.disable_repo = vec!["local".to_string()];
    assert!(!resolve_spk_repositories(&selection).local_first);
    selection.disable_repo = Vec::new();
    selection.local_repo_only = true;
    selection.enable_repo = vec!["staging".to_string()];
    assert_eq!(
        resolve_spk_repositories(&selection),
        RepoPlan { local_first: true, named: Vec::new() }
    );
}
