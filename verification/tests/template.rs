use spenv::template::{
    generate_full_template, generate_minimal_template, generate_standard_template,
};

#[test]
fn minimal_template_text() {
    assert_eq!(
        generate_minimal_template(false),
        format!(
            "api: spenv/v0\n\
            inherit: {}\n\
            \n\
            layers: []\n",
            false
        )
    );
    assert_eq!(generate_minimal_template(true), "api: spenv/v0\ninherit: true\n\nlayers: []\n");
}

fn standard(inherit: bool, layers: &[String]) -> String {
    let layers_section = if layers.is_empty() {
        "# layers:\n\
        #   - platform/centos7\n\
        #   - dev-tools/latest\n"
            .to_string()
    } else {
        format!(
            "layers:\n{}\n",
            layers
                .iter()
                .map(|l| format!("  - {}", l))
                .collect::<Vec<_>>()
                .join("\n")
        )
    };

    format!(
        "# spenv environment specification\n\
        # See: https://spkenv.dev/docs/spenv\n\
        \n\
        api: spenv/v0\n\
        \n\
        # Optional: Human-readable description\n\
        # description: \"My project environment\"\n\
        \n\
        # In-tree inheritance (default: false for security)\n\
        # When true, walks up directory tree loading parent .spenv.yaml files\n\
        # When false, only loads this file (recommended)\n\
        inherit: {}\n\
        \n\
        # Explicit includes (recommended over inherit: true)\n\
        # includes:\n\
        #   - ~/.config/spenv/defaults.spenv.yaml\n\
        #   - /team/shared/base.spenv.yaml\n\
        #   - ../shared/common.spenv.yaml\n\
        \n\
        # SPFS layers to load (tags, digests, or .spfs.yaml paths)\n\
        {}\
        \n\
        # Environment variable operations\n\
        # environment:\n\
        #   - prepend: PATH\n\
        #     value: /spfs/bin\n\
        #   - set: PROJECT_ROOT\n\
        #     value: /spfs/project\n\
        \n\
        # Bind mounts (host paths into /spfs)\n\
        # contents:\n\
        #   - bind: ./src\n\
        #     dest: /spfs/project/src\n",
        inherit, layers_section,
    )
}

#[test]
fn standard_template_text() {
    assert_eq!(generate_standard_template(false, &[]), standard(false, &[]));
    let layers = vec!["platform/centos7".to_string(), "dev-tools/latest".to_string()];
    assert_eq!(generate_standard_template(true, &layers), standard(true, &layers));
    let one = vec!["base".to_string()];
    assert_eq!(generate_standard_template(false, &one), standard(false, &one));
    assert!(generate_standard_template(false, &one).contains("\nlayers:\n  - base\n\n# Environment"));
}

#[test]
fn full_template_text() {
    let expected = format!(
        "# spenv environment specification\n\
        # Full example with all fields documented\n\
        \n\
        api: spenv/v0\n\
        \n\
        description: \"Full example environment\"\n\
        \n\
        inherit: {}\n\
        \n\
        includes:\n\
        #   - ~/.config/spenv/defaults.spenv.yaml\n\
        #   - /team/shared/base.spenv.yaml\n\
        \n\
        layers:\n\
        #   - platform/centos7\n\
        #   - dev-tools/latest\n\
        \n\
        packages:\n\
        #   - python/3.9\n\
        #   - cmake/3.20\n\
        \n\
        package_options:\n\
        #   binary_only: true\n\
        #   solver: step\n\
        #\n\
        # Note: Repository selection is controlled via CLI flags, not in spec:\n\
        #   spenv load --enable-repo origin --disable-repo local\n\
        #   See docs for SPENV_ENABLE_REPO and other environment variables\n\
        \n\
        environment:\n\
        #   - set: PROJECT_ROOT\n\
        #     value: /spfs/project\n\
        #   - prepend: PATH\n\
        #     value: /spfs/bin\n\
        #   - priority: 50\n\
        \n\
        contents:\n\
        #   - bind: ./src\n\
        #     dest: /spfs/project/src\n\
        #     readonly: false\n\
        \n\
        lock:\n\
        #   enabled: true\n\
        #   strict: false\n",
        true
    );
    assert_eq!(generate_full_template(true), expected);
    assert!(generate_full_template(false).contains("\ninherit: false\n"));
}
