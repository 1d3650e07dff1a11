use spenv::environment::{
    generate_startup_script, get_priority, AppendEnv, CommentEnv, EnvOp, PrependEnv, PriorityEnv,
    SetEnv,
};

#[test]
fn test_generate_startup_script_basic() {
    let ops = vec![
        EnvOp::Comment(CommentEnv {
            comment: "Example environment".to_string(),
        }),
        EnvOp::Assign(SetEnv {
            set: "FOO".to_string(),
            value: "bar".to_string(),
        }),
        EnvOp::Prepend(PrependEnv {
            prepend: "PATH".to_string(),
            value: "/spfs/bin".to_string(),
            separator: None,
        }),
        EnvOp::Append(AppendEnv {
            append: "LD_LIBRARY_PATH".to_string(),
            value: "/spfs/lib".to_string(),
            separator: Some(":".to_string()),
        }),
    ];

    let script = generate_startup_script(&ops);

    assert!(script.contains("# Example environment"));
    assert!(script.contains("export FOO=\"bar\""));
    assert!(script.contains("export PATH=\"/spfs/bin:"));
    assert!(script.contains("export LD_LIBRARY_PATH=\"${LD_LIBRARY_PATH}:"));
}

#[test]
fn test_escape_and_priority_defaults() {
    let ops = vec![
        EnvOp::Assign(SetEnv {
            set: "SPECIAL".to_string(),
            value: "value with $dollar and \"quotes\"".to_string(),
        }),
        EnvOp::Priority(PriorityEnv { priority: 10 }),
    ];

    let script = generate_startup_script(&ops);
    assert!(script.contains("SPECIAL"));
    assert!(!script.contains("$dollar and \"quotes\""));

    let priority = get_priority(&ops);
    assert_eq!(priority, 10);

    let default_priority = get_priority(&[]);
    assert_eq!(default_priority, 50);
}

#[test]
fn script_is_exact() {
    let ops = vec![
        EnvOp::Comment(CommentEnv { comment: "tools".to_string() }),
        EnvOp::Assign(SetEnv { set: "A".to_string(), value: "b\\c`d".to_string() }),
        EnvOp::Prepend(PrependEnv {
            prepend: "PATH".to_string(),
            value: "/x".to_string(),
            separator: Some(";".to_string()),
        }),
        EnvOp::Priority(PriorityEnv { priority: 7 }),
        EnvOp::Append(AppendEnv {
            append: "LIB".to_string(),
            value: "/y".to_string(),
            separator: None,
        }),
    ];
    let expected = "# tools\n\
                    export A=\"b\\\\c\\`d\"\n\
                    export PATH=\"/x;${PATH}\"\n\
                    export LIB=\"${LIB}:/y\"\n";
    assert_eq!(generate_startup_script(&ops), expected);
}

#[test]
fn empty_script_for_no_operations() {
    assert_eq!(generate_startup_script(&[]), "");
}

#[test]
fn last_priority_wins() {
    let ops = vec![
        EnvOp::Priority(PriorityEnv { priority: 10 }),
        EnvOp::Comment(CommentEnv { comment: "x".to_string() }),
        EnvOp::Priority(PriorityEnv { priority: 90 }),
    ];
    assert_eq!(get_priority(&ops), 90);
}
