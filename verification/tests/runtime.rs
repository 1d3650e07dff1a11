use spenv::bind::BindMount;
use spenv::compose::{compose_specs, ComposedEnvironment};
use spenv::declaration::EnvSpec;
use spenv::environment::{EnvOp, PriorityEnv, SetEnv};
use spenv::error::Error;
use spenv::runtime::{
    create_runtime, resolve_layer_reference, startup_script_name, RuntimeOptions, RuntimePlan,
    StartupScript, STARTUP_DIRECTORY, STARTUP_FILES_LOCATION,
};

#[test]
fn script_names_have_two_digits_at_least() {
    assert_eq!(startup_script_name(0), "00_spenv.sh");
    assert_eq!(startup_script_name(7), "07_spenv.sh");
    assert_eq!(startup_script_name(10), "10_spenv.sh");
    assert_eq!(startup_script_name(50), "50_spenv.sh");
    assert_eq!(startup_script_name(99), "99_spenv.sh");
    assert_eq!(startup_script_name(100), "100_spenv.sh");
    assert_eq!(startup_script_name(255), "255_spenv.sh");
    for p in 0..=255u8 {
        assert_eq!(startup_script_name(p), format!("{:02}_spenv.sh", p));
    }
}

#[test]
fn startup_directory_lies_below_the_runtime_root() {
    assert_eq!(STARTUP_FILES_LOCATION, "/spfs/etc/spfs/startup.d");
    assert_eq!(format!("/spfs/{}", STARTUP_DIRECTORY), STARTUP_FILES_LOCATION);
}

#[test]
fn runtime_options_default() {
    let options = RuntimeOptions::default();
    assert!(options.name.is_none());
    assert!(!options.keep);
    assert!(!options.editable);
    assert!(options.repo_selection.enable_repo.is_empty());
}

#[test]
fn empty_environment_gives_editable_runtime() {
    let plan = create_runtime(&ComposedEnvironment::new(), &RuntimeOptions::default()).unwrap();
    assert_eq!(
        plan,
        RuntimePlan {
            name: None,
            keep: false,
            editable: true,
            bind_base: None,
            binds: Vec::new(),
            layers: Vec::new(),
            startup: None,
        }
    );
}

#[test]
fn plan_carries_layers_binds_and_script() {
    let mut spec = EnvSpec::default();
    spec.layers = vec!["base".to_string(), "tools".to_string()];
    spec.contents = vec![BindMount {
        bind: "./src".to_string(),
        dest: "/spfs/src".to_string(),
        readonly: false,
    }];
    spec.environment = vec![
        EnvOp::Assign(SetEnv { set: "A".to_string(), value: "b".to_string() }),
        EnvOp::Priority(PriorityEnv { priority: 5 }),
    ];
    spec.source_path = Some("/project/.spenv.yaml".to_string());
    let composed = compose_specs(&[spec]);
    let options = RuntimeOptions {
        name: Some("dev".to_string()),
        keep: true,
        editable: false,
        repo_selection: Default::default(),
    };
    let plan = create_runtime(&composed, &options).unwrap();
    assert_eq!(
        plan,
        RuntimePlan {
            name: Some("dev".to_string()),
            keep: true,
            editable: false,
            bind_base: Some("/project".to_string()),
            binds: vec![BindMount {
                bind: "./src".to_string(),
                dest: "/spfs/src".to_string(),
                readonly: false,
            }],
            layers: vec!["base".to_string(), "tools".to_string()],
            startup: Some(StartupScript {
                name: "05_spenv.sh".to_string(),
                text: "export A=\"b\"\n".to_string(),
            }),
        }
    );
}

#[test]
fn binds_need_a_source_file() {
    let mut spec = EnvSpec::default();
    spec.contents = vec![BindMount {
        bind: "./src".to_string(),
        dest: "/spfs/src".to_string(),
        readonly: false,
    }];
    let composed = compose_specs(&[spec]);
    assert_eq!(
        create_runtime(&composed, &RuntimeOptions::default()),
        Err(Error::ValidationFailed(
            "No source files available to resolve bind mounts".to_string()
        ))
    );
}

#[test]
fn layer_reference_is_digest_or_tag_or_unknown() {
    assert_eq!(
        resolve_layer_reference("ABC", Some("ABC".to_string()), Some("XYZ".to_string())),
        Ok("ABC".to_string())
    );
    assert_eq!(
        resolve_layer_reference("platform/centos7", None, Some("XYZ".to_string())),
        Ok("XYZ".to_string())
    );
    assert_eq!(
        resolve_layer_reference("nothing", None, None),
        Err(Error::UnknownLayer { reference: "nothing".to_string(), similar: Vec::new() })
    );
}
