use spenv::declaration::{default_binary_only, ApiVersion, EnvSpec, PackageOptions};
use spenv::error::Error;

#[test]
fn test_default_spec() {
    let spec = EnvSpec::default();
    assert_eq!(spec.api, ApiVersion::V0);
    assert!(!spec.inherit);
    assert!(spec.layers.is_empty());
    assert!(spec.includes.is_empty());
    assert!(spec.packages.is_empty());
    assert!(spec.package_options.is_none());
    assert!(spec.source_path.is_none());
}

#[test]
fn default_version_is_v0() {
    assert_eq!(ApiVersion::default(), ApiVersion::V0);
}

#[test]
fn binary_only_defaults() {
    assert!(default_binary_only());
    let options = PackageOptions::default();
    assert!(!options.binary_only);
    assert!(options.repositories.is_empty());
    assert!(options.solver.is_none());
}

#[test]
fn validate_wants_a_source_path() {
    let mut spec = EnvSpec::default();
    assert_eq!(
        spec.validate(),
        Err(Error::ValidationFailed("source_path must be set".to_string()))
    );
    spec.source_path = Some("/project/.spenv.yaml".to_string());
    assert_eq!(spec.validate(), Ok(()));
}

#[test]
fn clone_keeps_everything() {
    let mut spec = EnvSpec::default();
    spec.description = Some("d".to_string());
    spec.inherit = true;
    spec.includes = vec!["a".to_string()];
    spec.layers = vec!["l".to_string()];
    spec.packages = vec!["p".to_string()];
    spec.package_options = Some(PackageOptions {
        binary_only: true,
        repositories: vec!["r".to_string()],
        solver: Some("step".to_string()),
    });
    spec.source_path = Some("/s".to_string());
    assert_eq!(spec.clone(), spec);
}

#[test]
fn resolve_includes_three_forms() {
    let mut spec = EnvSpec::default();
    spec.source_path = Some("/project/sub/.spenv.yaml".to_string());
    spec.includes = vec![
        "~/defaults.yaml".to_string(),
        "/team/base.yaml".to_string(),
        "../shared/common.yaml".to_string(),
        "~other".to_string(),
    ];
    assert_eq!(
        spec.resolve_includes(Some("/home/me")),
        Ok(vec![
            "/home/me/defaults.yaml".to_string(),
            "/team/base.yaml".to_string(),
            "/project/sub/../shared/common.yaml".to_string(),
            "/home/me/~other".to_string(),
        ])
    );
}

#[test]
fn resolve_includes_without_source_path() {
    let mut spec = EnvSpec::default();
    assert_eq!(spec.resolve_includes(Some("/home/me")), Ok(Vec::new()));
    assert_eq!(spec.resolve_includes(None), Ok(Vec::new()));

    spec.includes = vec!["/team/base.yaml".to_string(), "~/own.yaml".to_string()];
    assert_eq!(
        spec.resolve_includes(Some("/home/me")),
        Ok(vec!["/team/base.yaml".to_string(), "/home/me/own.yaml".to_string()])
    );

    spec.includes = vec!["/team/base.yaml".to_string(), "rel.yaml".to_string()];
    assert_eq!(
        spec.resolve_includes(Some("/home/me")),
        Err(Error::ValidationFailed(
            "Cannot resolve includes without source_path".to_string()
        ))
    );
}

#[test]
fn resolve_includes_reports_the_first_entry_that_points_nowhere() {
    let mut spec = EnvSpec::default();
    spec.includes = vec!["~/own.yaml".to_string(), "rel.yaml".to_string()];
    assert_eq!(
        spec.resolve_includes(None),
        Err(Error::ValidationFailed("Cannot resolve ~ without HOME".to_string()))
    );
    spec.includes = vec!["rel.yaml".to_string(), "~/own.yaml".to_string()];
    assert_eq!(
        spec.resolve_includes(None),
        Err(Error::ValidationFailed(
            "Cannot resolve includes without source_path".to_string()
        ))
    );
    spec.source_path = Some("/".to_string());
    spec.includes = vec!["rel.yaml".to_string()];
    assert_eq!(
        spec.resolve_includes(None),
        Err(Error::ValidationFailed(
            "Cannot resolve includes without source_path".to_string()
        ))
    );
}

#[test]
fn resolve_includes_without_home() {
    let mut spec = EnvSpec::default();
    spec.source_path = Some("/project/.spenv.yaml".to_string());
    spec.includes = vec!["/ok.yaml".to_string(), "~/x.yaml".to_string()];
    assert_eq!(
        spec.resolve_includes(None),
        Err(Error::ValidationFailed("Cannot resolve ~ without HOME".to_string()))
    );
    spec.includes = vec!["/ok.yaml".to_string()];
    assert_eq!(spec.resolve_includes(None), Ok(vec!["/ok.yaml".to_string()]));
}
