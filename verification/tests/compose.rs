use spenv::bind::BindMount;
use spenv::compose::{compose_specs, ComposedEnvironment};
use spenv::declaration::{ApiVersion, EnvSpec, PackageOptions};
use spenv::environment::{EnvOp, PriorityEnv, SetEnv};

fn make_spec(layers: Vec<&str>, source_path: Option<&str>) -> EnvSpec {
    EnvSpec {
        api: ApiVersion::V0,
        description: None,
        inherit: false,
        includes: Vec::new(),
        layers: layers.into_iter().map(String::from).collect(),
        environment: Vec::new(),
        contents: Vec::new(),
        packages: Vec::new(),
        package_options: None,
        source_path: source_path.map(String::from),
    }
}

#[test]
fn test_compose_empty() {
    let specs: Vec<EnvSpec> = vec![];
    let composed = compose_specs(&specs);

    assert!(composed.layers.is_empty());
    assert!(composed.source_files.is_empty());
}

#[test]
fn test_compose_single() {
    let specs = vec![make_spec(vec!["layer1", "layer2"], Some("/path/to/spec"))];
    let composed = compose_specs(&specs);

    assert_eq!(composed.layers, vec!["layer1", "layer2"]);
    assert_eq!(composed.source_files, vec!["/path/to/spec".to_string()]);
}

#[test]
fn test_compose_multiple() {
    let specs = vec![
        make_spec(vec!["parent-layer"], Some("/parent/.spenv.yaml")),
        make_spec(vec!["child-layer"], Some("/parent/child/.spenv.yaml")),
    ];
    let composed = compose_specs(&specs);

    assert_eq!(composed.layers, vec!["parent-layer", "child-layer"]);
    assert_eq!(composed.source_files.len(), 2);
}

#[test]
fn test_compose_overlapping_layers() {
    let specs = vec![
        make_spec(vec!["base", "tools"], None),
        make_spec(vec!["dev", "tools"], None),
    ];
    let composed = compose_specs(&specs);

    assert_eq!(composed.layers, vec!["base", "tools", "dev", "tools"]);
}

#[test]
fn test_has_layers() {
    let empty = ComposedEnvironment::default();
    assert!(!empty.has_layers());

    let with_layers = compose_specs(&[make_spec(vec!["layer"], None)]);
    assert!(with_layers.has_layers());
}

#[test]
fn test_compose_environment_operations() {
    let spec1 = EnvSpec {
        api: ApiVersion::V0,
        description: None,
        inherit: false,
        includes: Vec::new(),
        layers: vec!["base".to_string()],
        environment: vec![EnvOp::Assign(SetEnv {
            set: "FOO".to_string(),
            value: "one".to_string(),
        })],
        contents: Vec::new(),
        packages: Vec::new(),
        package_options: None,
        source_path: None,
    };

    let spec2 = EnvSpec {
        api: ApiVersion::V0,
        description: None,
        inherit: false,
        includes: Vec::new(),
        layers: vec!["dev".to_string()],
        environment: vec![EnvOp::Priority(PriorityEnv { priority: 10 })],
        contents: Vec::new(),
        packages: Vec::new(),
        package_options: None,
        source_path: None,
    };

    let composed = compose_specs(&[spec1, spec2]);

    assert_eq!(composed.layers, vec!["base", "dev"]);
    assert_eq!(composed.environment.len(), 2);
    assert_eq!(
        composed.environment,
        vec![
            EnvOp::Assign(SetEnv { set: "FOO".to_string(), value: "one".to_string() }),
            EnvOp::Priority(PriorityEnv { priority: 10 }),
        ]
    );
}

#[test]
fn test_compose_contents() {
    let spec = EnvSpec {
        api: ApiVersion::V0,
        description: None,
        inherit: false,
        includes: Vec::new(),
        layers: vec!["base".to_string()],
        environment: Vec::new(),
        contents: vec![BindMount {
            bind: "./src".to_string(),
            dest: "/spfs/project/src".to_string(),
            readonly: false,
        }],
        packages: Vec::new(),
        package_options: None,
        source_path: Some("/project/.spenv.yaml".to_string()),
    };

    let composed = compose_specs(&[spec]);
    assert_eq!(composed.contents.len(), 1);
    assert_eq!(composed.contents[0].dest, "/spfs/project/src");
}

#[test]
fn composing_then_layering_equals_composing_all() {
    let a = make_spec(vec!["a1", "a2"], Some("/a"));
    let b = make_spec(vec!["b1"], None);
    let mut c = make_spec(vec!["c1", "a1"], Some("/c"));
    c.packages = vec!["python/3".to_string()];

    let mut stepwise = compose_specs(&[a.clone(), b.clone()]);
    stepwise.layer(&c);
    let whole = compose_specs(&[a, b, c]);

    assert_eq!(stepwise, whole);
    assert_eq!(whole.layers, vec!["a1", "a2", "b1", "c1", "a1"]);
    assert_eq!(whole.source_files, vec!["/a", "/c"]);
    assert_eq!(whole.packages, vec!["python/3"]);
}

#[test]
fn last_package_options_win() {
    let first = PackageOptions {
        binary_only: true,
        repositories: vec!["one".to_string()],
        solver: None,
    };
    let last = PackageOptions {
        binary_only: false,
        repositories: Vec::new(),
        solver: Some("resolvo".to_string()),
    };
    let mut a = make_spec(vec![], None);
    a.package_options = Some(first.clone());
    let mut b = make_spec(vec![], None);
    b.package_options = Some(last.clone());
    let c = make_spec(vec![], None);

    assert_eq!(compose_specs(&[a.clone(), b.clone(), c.clone()]).package_options, Some(last));
    assert_eq!(compose_specs(&[a.clone(), c.clone()]).package_options, Some(first));
    assert_eq!(compose_specs(&[c]).package_options, None);
}

#[test]
fn sources_without_a_file_leave_no_trace() {
    let composed = compose_specs(&[
        make_spec(vec!["x"], None),
        make_spec(vec!["y"], Some("/y/.spenv.yaml")),
    ]);
    assert_eq!(composed.source_count(), 1);
    assert_eq!(composed.layers, vec!["x", "y"]);
}

#[test]
fn new_environment_is_empty() {
    let env = ComposedEnvironment::new();
    assert!(!env.has_layers());
    assert_eq!(env.source_count(), 0);
    assert_eq!(env, ComposedEnvironment::default());
    assert!(env.environment.is_empty() && env.contents.is_empty() && env.packages.is_empty());
    assert!(env.package_options.is_none());
}
