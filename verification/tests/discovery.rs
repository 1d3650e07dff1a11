use std::collections::HashMap;

use spenv::declaration::EnvSpec;
use spenv::discovery::{
    clear_seen_spec_cache, discover_specs, is_truthy, resolve_include_path, resolve_start_path,
    DiscoveryOptions, LoadFailure, Progress, Reply, Request, Stage,
};
use spenv::error::Error;
use spenv::{SPENV_FILENAME, SPENV_LOCAL_FILENAME, SPENV_LOCK_FILENAME};

/// Files held in memory: the declaration or the failure behind each path.
struct Files {
    entries: HashMap<String, Result<EnvSpec, LoadFailure>>,
    asked: Vec<Request>,
}

fn tidy(path: &str) -> String {
    let mut parts: Vec<&str> = Vec::new();
    for part in path.split('/') {
        match part {
            "" | "." => {}
            ".." => {
                parts.pop();
            }
            other => parts.push(other),
        }
    }
    format!("/{}", parts.join("/"))
}

impl Files {
    fn new() -> Self {
        Files { entries: HashMap::new(), asked: Vec::new() }
    }

    fn put(&mut self, path: &str, spec: EnvSpec) {
        self.entries.insert(path.to_string(), Ok(spec));
    }

    fn put_broken(&mut self, path: &str, failure: LoadFailure) {
        self.entries.insert(path.to_string(), Err(failure));
    }

    fn answer(&mut self, request: Request) -> Reply {
        self.asked.push(match &request {
            Request::Canonicalize { path } => Request::Canonicalize { path: path.clone() },
            Request::IsFile { path } => Request::IsFile { path: path.clone() },
            Request::Load { path } => Request::Load { path: path.clone() },
        });
        match request {
            Request::Canonicalize { path } => {
                let real = tidy(&path);
                if self.entries.contains_key(&real) {
                    Reply::Canonical(Ok(real))
                } else {
                    Reply::Canonical(Err("No such file or directory (os error 2)".to_string()))
                }
            }
            Request::IsFile { path } => Reply::IsFile(self.entries.contains_key(&tidy(&path))),
            Request::Load { path } => match self.entries.get(&tidy(&path)) {
                Some(Ok(spec)) => Reply::Loaded(Ok(spec.clone())),
                Some(Err(LoadFailure::Unreadable { error })) => {
                    Reply::Loaded(Err(LoadFailure::Unreadable { error: error.clone() }))
                }
                Some(Err(LoadFailure::Malformed { error, yaml_content })) => {
                    Reply::Loaded(Err(LoadFailure::Malformed {
                        error: error.clone(),
                        yaml_content: yaml_content.clone(),
                    }))
                }
                None => Reply::Loaded(Err(LoadFailure::Unreadable {
                    error: "No such file or directory (os error 2)".to_string(),
                })),
            },
        }
    }

    fn discover_with_home(
        &mut self,
        start: &str,
        options: &DiscoveryOptions,
        home: Option<&str>,
    ) -> Result<Vec<EnvSpec>, Error> {
        let (mut session, mut progress) = discover_specs(start, options, home, None, "/");
        loop {
            match progress {
                Progress::Done(result) => {
                    assert_eq!(session.stage(), Stage::Finished);
                    return result;
                }
                Progress::Ask(request) => {
                    let reply = self.answer(request);
                    progress = session.advance(reply);
                }
            }
        }
    }

    fn discover(&mut self, start: &str, options: &DiscoveryOptions) -> Result<Vec<EnvSpec>, Error> {
        self.discover_with_home(start, options, Some("/home/me"))
    }
}

fn layered(layers: Vec<&str>) -> EnvSpec {
    let mut spec = EnvSpec::default();
    spec.layers = layers.into_iter().map(String::from).collect();
    spec
}

fn including(layers: Vec<&str>, includes: Vec<&str>) -> EnvSpec {
    let mut spec = layered(layers);
    spec.includes = includes.into_iter().map(String::from).collect();
    spec
}

fn inheriting(layers: Vec<&str>, inherit: bool) -> EnvSpec {
    let mut spec = layered(layers);
    spec.inherit = inherit;
    spec
}

fn first_layers(specs: &[EnvSpec]) -> Vec<String> {
    specs.iter().map(|s| s.layers.first().cloned().unwrap_or_default()).collect()
}

fn paths(specs: &[EnvSpec]) -> Vec<String> {
    specs.iter().map(|s| s.source_path.clone().unwrap_or_default()).collect()
}

#[test]
fn file_names_are_the_well_known_ones() {
    assert_eq!(SPENV_FILENAME, ".spenv.yaml");
    assert_eq!(SPENV_LOCAL_FILENAME, ".spenv.local.yaml");
    assert_eq!(SPENV_LOCK_FILENAME, ".spenv.lock.yaml");
}

#[test]
fn test_discover_single_spec() {
    let mut files = Files::new();
    files.put("/tmp/work/.spenv.yaml", layered(vec!["test-layer"]));

    let options = DiscoveryOptions::default();
    let specs = files.discover("/tmp/work", &options).expect("Should discover spec");

    assert_eq!(specs.len(), 1);
    assert_eq!(specs[0].layers, vec!["test-layer"]);
    assert_eq!(specs[0].source_path, Some("/tmp/work/.spenv.yaml".to_string()));
}

#[test]
fn test_inherit_false_stops_discovery() {
    let mut files = Files::new();
    files.put("/tmp/work/.spenv.yaml", inheriting(vec!["parent-layer"], false));
    files.put("/tmp/work/child/.spenv.yaml", layered(vec!["child-layer"]));

    let options = DiscoveryOptions::default();
    let specs = files.discover("/tmp/work/child", &options).expect("Should discover spec");

    assert_eq!(specs.len(), 1);
    assert_eq!(specs[0].layers, vec!["child-layer"]);
    assert!(!files.asked.contains(&Request::IsFile { path: "/tmp/work/.spenv.yaml".to_string() }));
}

#[test]
fn test_inherit_true_walks_up() {
    let mut files = Files::new();
    files.put("/tmp/work/.spenv.yaml", inheriting(vec!["parent-layer"], false));
    files.put("/tmp/work/child/.spenv.yaml", inheriting(vec!["child-layer"], true));

    let options = DiscoveryOptions::default();
    let specs = files.discover("/tmp/work/child", &options).expect("Should discover specs");

    assert_eq!(specs.len(), 2);
    assert_eq!(specs[0].layers, vec!["parent-layer"]);
    assert_eq!(specs[1].layers, vec!["child-layer"]);
}

#[test]
fn test_force_inherit_option() {
    let mut files = Files::new();
    files.put("/tmp/work/.spenv.yaml", layered(vec!["parent-layer"]));
    files.put("/tmp/work/child/.spenv.yaml", layered(vec!["child-layer"]));

    let options = DiscoveryOptions { force_inherit: true, ..Default::default() };
    let specs = files.discover("/tmp/work/child", &options).expect("Should discover specs");

    assert_eq!(specs.len(), 2);
    assert_eq!(first_layers(&specs), vec!["parent-layer", "child-layer"]);
}

#[test]
fn test_no_inherit_option() {
    let mut files = Files::new();
    files.put("/tmp/work/.spenv.yaml", layered(vec!["parent-layer"]));
    files.put("/tmp/work/child/.spenv.yaml", inheriting(vec!["child-layer"], true));

    let options = DiscoveryOptions { no_inherit: true, ..Default::default() };
    let specs = files.discover("/tmp/work/child", &options).expect("Should discover spec");

    assert_eq!(specs.len(), 1);
    assert_eq!(specs[0].layers, vec!["child-layer"]);
}

#[test]
fn test_not_found_error() {
    let mut files = Files::new();

    let options = DiscoveryOptions::default();
    let result = files.discover("/tmp/work/deep/er", &options);

    assert!(result.is_err());
    match result {
        Err(Error::NotFoundInTree(_)) => {}
        other => panic!("Expected NotFoundInTree, got: {:?}", other),
    }
    assert_eq!(
        files.asked,
        vec![
            Request::IsFile { path: "/tmp/work/deep/er/.spenv.yaml".to_string() },
            Request::IsFile { path: "/tmp/work/deep/.spenv.yaml".to_string() },
            Request::IsFile { path: "/tmp/work/.spenv.yaml".to_string() },
            Request::IsFile { path: "/tmp/.spenv.yaml".to_string() },
            Request::IsFile { path: "/.spenv.yaml".to_string() },
        ]
    );
}

#[test]
fn test_local_override() {
    let mut files = Files::new();
    files.put("/tmp/work/.spenv.yaml", layered(vec!["main-layer"]));
    files.put("/tmp/work/.spenv.local.yaml", layered(vec!["local-layer"]));

    let options = DiscoveryOptions::default();
    let specs = files.discover("/tmp/work", &options).expect("Should discover specs");

    assert_eq!(specs.len(), 2);
    assert_eq!(specs[0].layers, vec!["main-layer"]);
    assert_eq!(specs[1].layers, vec!["local-layer"]);
    assert_eq!(specs[1].source_path, Some("/tmp/work/.spenv.local.yaml".to_string()));
}

#[test]
fn not_found_names_the_starting_directory() {
    let mut files = Files::new();
    assert_eq!(
        files.discover("/tmp/work", &DiscoveryOptions::default()),
        Err(Error::NotFoundInTree("/tmp/work".to_string()))
    );
    let stay = DiscoveryOptions { no_inherit: true, ..Default::default() };
    assert_eq!(
        files.discover("/tmp/work", &stay),
        Err(Error::NotFoundAtPath("/tmp/work".to_string()))
    );
}

#[test]
fn no_inherit_fails_even_with_a_parent_declaration() {
    let mut files = Files::new();
    files.put("/tmp/.spenv.yaml", layered(vec!["parent"]));
    let stay = DiscoveryOptions { no_inherit: true, ..Default::default() };
    assert_eq!(
        files.discover("/tmp/work", &stay),
        Err(Error::NotFoundAtPath("/tmp/work".to_string()))
    );
}

#[test]
fn force_inherit_beats_no_inherit() {
    let mut files = Files::new();
    files.put("/tmp/.spenv.yaml", layered(vec!["parent"]));
    files.put("/tmp/work/.spenv.yaml", layered(vec!["child"]));
    let both = DiscoveryOptions { no_inherit: true, force_inherit: true, ..Default::default() };
    let specs = files.discover("/tmp/work", &both).unwrap();
    assert_eq!(first_layers(&specs), vec!["parent", "child"]);
}

#[test]
fn missing_start_declaration_walks_up_to_an_ancestor() {
    let mut files = Files::new();
    files.put("/tmp/.spenv.yaml", layered(vec!["ancestor"]));
    let specs = files.discover("/tmp/a/b", &DiscoveryOptions::default()).unwrap();
    assert_eq!(paths(&specs), vec!["/tmp/.spenv.yaml"]);
}

#[test]
fn ancestors_decide_how_far_the_walk_goes() {
    let mut files = Files::new();
    files.put("/.spenv.yaml", layered(vec!["root"]));
    files.put("/a/.spenv.yaml", inheriting(vec!["a"], true));
    files.put("/a/b/c/.spenv.yaml", inheriting(vec!["c"], true));
    let specs = files.discover("/a/b/c", &DiscoveryOptions::default()).unwrap();
    assert_eq!(first_layers(&specs), vec!["root", "a", "c"]);

    files.put("/a/.spenv.yaml", inheriting(vec!["a"], false));
    let forced = DiscoveryOptions { force_inherit: true, ..Default::default() };
    let specs = files.discover("/a/b/c", &forced).unwrap();
    assert_eq!(first_layers(&specs), vec!["a", "c"]);
}

#[test]
fn includes_come_before_the_file_that_names_them() {
    let mut files = Files::new();
    files.put("/p/.spenv.yaml", including(vec!["main"], vec!["inc/a.yaml", "/shared/b.yaml"]));
    files.put("/p/inc/a.yaml", including(vec!["a"], vec!["../deep/c.yaml"]));
    files.put("/p/deep/c.yaml", layered(vec!["c"]));
    files.put("/shared/b.yaml", including(vec!["b"], vec!["~/d.yaml"]));
    files.put("/home/me/d.yaml", layered(vec!["d"]));
    let specs = files.discover("/p", &DiscoveryOptions::default()).unwrap();
    assert_eq!(first_layers(&specs), vec!["c", "a", "d", "b", "main"]);
    assert_eq!(
        paths(&specs),
        vec!["/p/deep/c.yaml", "/p/inc/a.yaml", "/home/me/d.yaml", "/shared/b.yaml", "/p/.spenv.yaml"]
    );
}

#[test]
fn supplied_entries_come_first_in_their_order() {
    let mut files = Files::new();
    files.put("/cli/one.yaml", layered(vec!["cli-one"]));
    files.put("/cli/two.yaml", including(vec!["cli-two"], vec!["nested.yaml"]));
    files.put("/cli/nested.yaml", layered(vec!["nested"]));
    files.put("/home/me/env.yaml", layered(vec!["env"]));
    files.put("/p/.spenv.yaml", inheriting(vec!["child"], true));
    files.put("/.spenv.yaml", layered(vec!["root"]));
    files.put("/p/.spenv.local.yaml", including(vec!["local"], vec!["/cli/one.yaml"]));
    let options = DiscoveryOptions {
        no_inherit: false,
        force_inherit: false,
        cli_includes: vec!["/cli/one.yaml".to_string(), "/cli/two.yaml".to_string()],
        env_includes: vec!["~/env.yaml".to_string()],
    };
    let specs = files.discover("/p", &options).unwrap();
    assert_eq!(
        first_layers(&specs),
        vec!["cli-one", "nested", "cli-two", "env", "root", "child", "local"]
    );
}

#[test]
fn self_include_is_circular() {
    let mut files = Files::new();
    files.put("/cli/loop.yaml", including(vec!["x"], vec!["loop.yaml"]));
    let options = DiscoveryOptions {
        cli_includes: vec!["/cli/loop.yaml".to_string()],
        ..Default::default()
    };
    files.put("/p/.spenv.yaml", layered(vec!["main"]));
    assert_eq!(
        files.discover("/p", &options),
        Err(Error::CircularInclude("/cli/loop.yaml".to_string()))
    );
}

#[test]
fn in_tree_self_include_is_circular() {
    let mut files = Files::new();
    files.put("/p/.spenv.yaml", including(vec!["main"], vec!["./.spenv.yaml"]));
    assert_eq!(
        files.discover("/p", &DiscoveryOptions::default()),
        Err(Error::CircularInclude("/p/.spenv.yaml".to_string()))
    );
}

#[test]
fn longer_cycles_are_circular() {
    let mut files = Files::new();
    files.put("/p/.spenv.yaml", including(vec!["main"], vec!["a.yaml"]));
    files.put("/p/a.yaml", including(vec!["a"], vec!["b.yaml"]));
    files.put("/p/b.yaml", including(vec!["b"], vec!["c.yaml"]));
    files.put("/p/c.yaml", including(vec!["c"], vec!["a.yaml"]));
    assert_eq!(
        files.discover("/p", &DiscoveryOptions::default()),
        Err(Error::CircularInclude("/p/a.yaml".to_string()))
    );
}

#[test]
fn a_file_included_twice_is_circular() {
    let mut files = Files::new();
    files.put("/p/.spenv.yaml", including(vec!["main"], vec!["a.yaml", "b.yaml"]));
    files.put("/p/a.yaml", including(vec!["a"], vec!["shared.yaml"]));
    files.put("/p/b.yaml", including(vec!["b"], vec!["shared.yaml"]));
    files.put("/p/shared.yaml", layered(vec!["shared"]));
    assert_eq!(
        files.discover("/p", &DiscoveryOptions::default()),
        Err(Error::CircularInclude("/p/shared.yaml".to_string()))
    );
}

#[test]
fn every_run_starts_with_nothing_seen() {
    let mut files = Files::new();
    files.put("/p/.spenv.yaml", including(vec!["main"], vec!["a.yaml"]));
    files.put("/p/a.yaml", layered(vec!["a"]));
    let first = files.discover("/p", &DiscoveryOptions::default()).unwrap();
    let second = files.discover("/p", &DiscoveryOptions::default()).unwrap();
    assert_eq!(first, second);
    assert_eq!(first_layers(&first), vec!["a", "main"]);
}

#[test]
fn clearing_the_cache_forgets_seen_files() {
    let options = DiscoveryOptions {
        cli_includes: vec!["/a.yaml".to_string(), "/a.yaml".to_string()],
        ..Default::default()
    };
    let (mut session, progress) = discover_specs("/p", &options, None, None, "/");
    assert_eq!(progress, Progress::Ask(Request::Canonicalize { path: "/a.yaml".to_string() }));
    let progress = session.advance(Reply::Canonical(Ok("/a.yaml".to_string())));
    assert_eq!(progress, Progress::Ask(Request::Load { path: "/a.yaml".to_string() }));
    let progress = session.advance(Reply::Loaded(Ok(EnvSpec::default())));
    assert_eq!(progress, Progress::Ask(Request::Canonicalize { path: "/a.yaml".to_string() }));
    clear_seen_spec_cache(&mut session);
    let progress = session.advance(Reply::Canonical(Ok("/a.yaml".to_string())));
    assert_eq!(progress, Progress::Ask(Request::Load { path: "/a.yaml".to_string() }));

    let (mut session, _) = discover_specs("/p", &options, None, None, "/");
    session.advance(Reply::Canonical(Ok("/a.yaml".to_string())));
    session.advance(Reply::Loaded(Ok(EnvSpec::default())));
    assert_eq!(
        session.advance(Reply::Canonical(Ok("/a.yaml".to_string()))),
        Progress::Done(Err(Error::CircularInclude("/a.yaml".to_string())))
    );
}

#[test]
fn missing_include_is_reported_with_its_path() {
    let mut files = Files::new();
    files.put("/p/.spenv.yaml", including(vec!["main"], vec!["gone.yaml"]));
    assert_eq!(
        files.discover("/p", &DiscoveryOptions::default()),
        Err(Error::IncludeNotFound {
            path: "/p/gone.yaml".to_string(),
            error: "No such file or directory (os error 2)".to_string(),
        })
    );
}

#[test]
fn supplied_entries_need_an_anchor() {
    let mut files = Files::new();
    files.put("/p/.spenv.yaml", layered(vec!["main"]));
    let relative = DiscoveryOptions {
        cli_includes: vec!["rel.yaml".to_string()],
        ..Default::default()
    };
    assert_eq!(
        files.discover("/p", &relative),
        Err(Error::ValidationFailed(
            "Cannot resolve relative include 'rel.yaml' without base directory".to_string()
        ))
    );
    let homeless = DiscoveryOptions {
        env_includes: vec!["~/x.yaml".to_string()],
        ..Default::default()
    };
    assert_eq!(
        files.discover_with_home("/p", &homeless, None),
        Err(Error::ValidationFailed("Cannot resolve ~ without HOME".to_string()))
    );
}

#[test]
fn unreadable_and_malformed_files_end_the_run() {
    let mut files = Files::new();
    files.put_broken(
        "/p/.spenv.yaml",
        LoadFailure::Unreadable { error: "Permission denied (os error 13)".to_string() },
    );
    assert_eq!(
        files.discover("/p", &DiscoveryOptions::default()),
        Err(Error::ReadFailed {
            path: "/p/.spenv.yaml".to_string(),
            error: "Permission denied (os error 13)".to_string(),
        })
    );
    files.put("/p/.spenv.yaml", layered(vec!["main"]));
    files.put_broken(
        "/p/.spenv.local.yaml",
        LoadFailure::Malformed {
            error: "missing field `api`".to_string(),
            yaml_content: "layers: []\n".to_string(),
        },
    );
    assert_eq!(
        files.discover("/p", &DiscoveryOptions::default()),
        Err(Error::InvalidYaml {
            error: "missing field `api`".to_string(),
            yaml_content: "layers: []\n".to_string(),
        })
    );
}

#[test]
fn local_override_is_not_expanded() {
    let mut files = Files::new();
    files.put("/p/.spenv.yaml", layered(vec!["main"]));
    files.put("/p/.spenv.local.yaml", including(vec!["local"], vec!["/nowhere.yaml"]));
    let specs = files.discover("/p", &DiscoveryOptions::default()).unwrap();
    assert_eq!(first_layers(&specs), vec!["main", "local"]);
}

#[test]
fn replies_out_of_turn_end_the_run() {
    let (mut session, progress) =
        discover_specs("/p", &DiscoveryOptions::default(), None, None, "/");
    assert_eq!(progress, Progress::Ask(Request::IsFile { path: "/p/.spenv.yaml".to_string() }));
    assert_eq!(session.stage(), Stage::StartProbe);
    let out_of_turn = Progress::Done(Err(Error::ValidationFailed(
        "Reply does not answer the pending request".to_string(),
    )));
    assert_eq!(session.advance(Reply::Canonical(Ok("/x".to_string()))), out_of_turn);
    assert_eq!(session.stage(), Stage::Finished);
    assert_eq!(session.advance(Reply::IsFile(true)), out_of_turn);
}

#[test]
fn relative_start_is_taken_below_the_working_directory() {
    assert_eq!(resolve_start_path("/abs/dir", Some("/pwd"), "/cwd"), "/abs/dir");
    assert_eq!(resolve_start_path("work", Some("/pwd"), "/cwd"), "/pwd/work");
    assert_eq!(resolve_start_path("work", None, "/cwd"), "/cwd/work");
    assert_eq!(resolve_start_path(".", Some("/link/here"), "/real/here"), "/link/here/.");

    let (_, progress) =
        discover_specs("proj", &DiscoveryOptions::default(), None, Some("/link"), "/real");
    assert_eq!(progress, Progress::Ask(Request::IsFile { path: "/link/proj/.spenv.yaml".to_string() }));
}

#[test]
fn include_paths_take_three_forms() {
    assert_eq!(
        resolve_include_path("~/cfg/base.yaml", Some("/p"), Some("/home/me")),
        Ok("/home/me/cfg/base.yaml".to_string())
    );
    assert_eq!(
        resolve_include_path("~", Some("/p"), Some("/home/me")),
        Ok("/home/me/~".to_string())
    );
    assert_eq!(
        resolve_include_path("/team/base.yaml", None, None),
        Ok("/team/base.yaml".to_string())
    );
    assert_eq!(
        resolve_include_path("../x.yaml", Some("/p/q"), None),
        Ok("/p/q/../x.yaml".to_string())
    );
    assert_eq!(
        resolve_include_path("x.yaml", None, Some("/home/me")),
        Err(Error::ValidationFailed(
            "Cannot resolve relative include 'x.yaml' without base directory".to_string()
        ))
    );
    assert_eq!(
        resolve_include_path("~/x.yaml", Some("/p"), None),
        Err(Error::ValidationFailed("Cannot resolve ~ without HOME".to_string()))
    );
}

#[test]
fn switches_accept_four_spellings() {
    for on in ["1", "true", "yes", "on"] {
        assert!(is_truthy(on));
    }
    for off in ["", "0", "false", "no", "off", "TRUE", "Yes", " 1", "on "] {
        assert!(!is_truthy(off));
    }
}

#[test]
fn options_come_from_command_line_and_environment() {
    let options = DiscoveryOptions::from_inputs(
        false,
        false,
        vec!["/cli.yaml".to_string()],
        Some("/a.yaml:~/b.yaml"),
        Some("yes"),
        Some("0"),
    );
    assert_eq!(
        options,
        DiscoveryOptions {
            no_inherit: false,
            force_inherit: true,
            cli_includes: vec!["/cli.yaml".to_string()],
            env_includes: vec!["/a.yaml".to_string(), "~/b.yaml".to_string()],
        }
    );
    let options = DiscoveryOptions::from_inputs(true, false, Vec::new(), None, None, None);
    assert_eq!(
        options,
        DiscoveryOptions { no_inherit: true, ..Default::default() }
    );
    let options = DiscoveryOptions::from_inputs(false, true, Vec::new(), Some(""), Some("off"), Some("on"));
    assert_eq!(
        options,
        DiscoveryOptions {
            no_inherit: true,
            force_inherit: true,
            cli_includes: Vec::new(),
            env_includes: vec!["".to_string()],
        }
    );
    assert_eq!(options.clone(), options);
}

#[test]
fn tree_file_naming_the_file_above_is_circular() {
    let mut files = Files::new();
    files.put("/p/.spenv.yaml", layered(vec!["parent"]));
    files.put("/p/c/.spenv.yaml", {
        let mut child = including(vec!["child"], vec!["../.spenv.yaml"]);
        child.inherit = true;
        child
    });
    assert_eq!(
        files.discover("/p/c", &DiscoveryOptions::default()),
        Err(Error::CircularInclude("/p/.spenv.yaml".to_string()))
    );
}

#[test]
fn start_file_naming_itself_behind_another_entry_is_circular() {
    let mut files = Files::new();
    files.put("/p/.spenv.yaml", including(vec!["main"], vec!["other.yaml", ".spenv.yaml"]));
    files.put("/p/other.yaml", layered(vec!["other"]));
    assert_eq!(
        files.discover("/p", &DiscoveryOptions::default()),
        Err(Error::CircularInclude("/p/.spenv.yaml".to_string()))
    );
}

#[test]
fn cycle_through_a_tree_file_is_circular() {
    let mut files = Files::new();
    files.put("/p/.spenv.yaml", including(vec!["main"], vec!["a.yaml"]));
    files.put("/p/a.yaml", including(vec!["a"], vec!["b.yaml"]));
    files.put("/p/b.yaml", including(vec!["b"], vec!["./.spenv.yaml"]));
    assert_eq!(
        files.discover("/p", &DiscoveryOptions::default()),
        Err(Error::CircularInclude("/p/.spenv.yaml".to_string()))
    );
}

#[test]
fn supplied_file_naming_a_tree_file_loads_it_once() {
    let mut files = Files::new();
    files.put("/cli/one.yaml", including(vec!["cli"], vec!["/p/.spenv.yaml"]));
    files.put("/p/.spenv.yaml", layered(vec!["main"]));
    let options = DiscoveryOptions {
        cli_includes: vec!["/cli/one.yaml".to_string()],
        ..Default::default()
    };
    assert_eq!(
        files.discover("/p", &options),
        Err(Error::CircularInclude("/p/.spenv.yaml".to_string()))
    );
}

#[test]
fn tree_files_are_asked_for_their_canonical_path_and_loaded_as_found() {
    let mut files = Files::new();
    files.put("/p/.spenv.yaml", layered(vec!["main"]));
    let specs = files.discover("/p/.", &DiscoveryOptions::default()).unwrap();
    assert_eq!(paths(&specs), vec!["/p/./.spenv.yaml"]);
    assert_eq!(
        files.asked,
        vec![
            Request::IsFile { path: "/p/./.spenv.yaml".to_string() },
            Request::Canonicalize { path: "/p/./.spenv.yaml".to_string() },
            Request::Load { path: "/p/./.spenv.yaml".to_string() },
            Request::IsFile { path: "/p/./.spenv.local.yaml".to_string() },
        ]
    );
}

#[test]
fn tree_file_without_canonical_path_counts_by_its_own() {
    let (mut session, progress) =
        discover_specs("/p", &DiscoveryOptions::default(), None, None, "/");
    assert_eq!(progress, Progress::Ask(Request::IsFile { path: "/p/.spenv.yaml".to_string() }));
    assert_eq!(
        session.advance(Reply::IsFile(true)),
        Progress::Ask(Request::Canonicalize { path: "/p/.spenv.yaml".to_string() })
    );
    assert_eq!(
        session.advance(Reply::Canonical(Err("gone".to_string()))),
        Progress::Ask(Request::Load { path: "/p/.spenv.yaml".to_string() })
    );
    let spec = including(vec!["main"], vec!["/x.yaml"]);
    assert_eq!(
        session.advance(Reply::Loaded(Ok(spec))),
        Progress::Ask(Request::Canonicalize { path: "/x.yaml".to_string() })
    );
    assert_eq!(
        session.advance(Reply::Canonical(Ok("/p/.spenv.yaml".to_string()))),
        Progress::Done(Err(Error::CircularInclude("/p/.spenv.yaml".to_string())))
    );
}
