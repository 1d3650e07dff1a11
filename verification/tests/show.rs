use spenv::compose::compose_specs;
use spenv::declaration::EnvSpec;
use spenv::environment::{AppendEnv, CommentEnv, EnvOp, PrependEnv, PriorityEnv, SetEnv};
use spenv::show::{show_json, show_yaml};
use spenv::text::to_decimal;

fn shown_specs() -> Vec<EnvSpec> {
    let mut base = EnvSpec::default();
    base.layers = vec!["platform/centos7".to_string()];
    base.source_path = Some("/team/base.spenv.yaml".to_string());
    let mut memory = EnvSpec::default();
    memory.layers = vec!["scratch".to_string()];
    let mut project = EnvSpec::default();
    project.layers = vec!["dev-tools/latest".to_string()];
    project.source_path = Some("/work/.spenv.yaml".to_string());
    project.environment = vec![
        EnvOp::Assign(SetEnv { set: "ROOT".to_string(), value: "/spfs/project".to_string() }),
        EnvOp::Prepend(PrependEnv {
            prepend: "PATH".to_string(),
            value: "/spfs/bin".to_string(),
            separator: None,
        }),
        EnvOp::Append(AppendEnv {
            append: "LIB".to_string(),
            value: "/spfs/lib".to_string(),
            separator: Some(";".to_string()),
        }),
        EnvOp::Comment(CommentEnv { comment: "note".to_string() }),
        EnvOp::Priority(PriorityEnv { priority: 7 }),
    ];
    vec![base, memory, project]
}

#[test]
fn decimal_numbers() {
    assert_eq!(to_decimal(0), "0");
    assert_eq!(to_decimal(7), "7");
    assert_eq!(to_decimal(10), "10");
    assert_eq!(to_decimal(1234567890), "1234567890");
    assert_eq!(to_decimal(usize::MAX), usize::MAX.to_string());
}

#[test]
fn yaml_shows_files_layers_and_operations() {
    let specs = shown_specs();
    let composed = compose_specs(&specs);
    let expected = "# Discovered Files:\n\
                    # - /team/base.spenv.yaml\n\
                    # - /work/.spenv.yaml\n\
                    \n\
                    # Composed Environment:\n\
                    layers:\n\
                    \x20 - platform/centos7\n\
                    \x20 - scratch\n\
                    \x20 - dev-tools/latest\n\
                    \n\
                    environment:\n\
                    \x20 - set: ROOT\n\
                    \x20   value: /spfs/project\n\
                    \x20 - prepend: PATH\n\
                    \x20   value: /spfs/bin\n\
                    \x20 - append: LIB\n\
                    \x20   value: /spfs/lib\n\
                    \x20   separator: ;\n\
                    \x20 - comment: note\n\
                    \x20 - priority: 7\n";
    assert_eq!(show_yaml(&specs, &composed), expected);
}

#[test]
fn yaml_without_operations_has_no_environment() {
    let mut spec = EnvSpec::default();
    spec.layers = vec!["base".to_string()];
    let specs = vec![spec];
    let composed = compose_specs(&specs);
    assert_eq!(
        show_yaml(&specs, &composed),
        "# Discovered Files:\n\n# Composed Environment:\nlayers:\n  - base\n"
    );
    assert_eq!(
        show_yaml(&[], &compose_specs(&[])),
        "# Discovered Files:\n\n# Composed Environment:\nlayers:\n"
    );
}

#[test]
fn json_shows_files_layers_and_counts() {
    let specs = shown_specs();
    let composed = compose_specs(&specs);
    let expected = "{\n\
                    \x20 \"discovered_files\": [\"/team/base.spenv.yaml\", \"/work/.spenv.yaml\"],\n\
                    \x20 \"layers\": [\"platform/centos7\", \"scratch\", \"dev-tools/latest\"],\n\
                    \x20 \"total_files\": 3,\n\
                    \x20 \"total_layers\": 3\n\
                    }\n";
    assert_eq!(show_json(&specs, &composed), expected);
    assert_eq!(
        show_json(&[], &compose_specs(&[])),
        "{\n  \"discovered_files\": [],\n  \"layers\": [],\n  \"total_files\": 0,\n  \"total_layers\": 0\n}\n"
    );
}
