use spenv::bind::{BindMount, LiveLayerBind};
use spenv::error::Error;

#[test]
fn test_to_live_layer_bind_relative() {
    let bm = BindMount {
        bind: "src".to_string(),
        dest: "/spfs/project/src".to_string(),
        readonly: false,
    };

    let source = bm.source_path("/work/project", None).unwrap();
    assert_eq!(source, "/work/project/src");
    let ll = bm.to_live_layer_bind(&source, Ok("/work/project/src".to_string())).unwrap();
    assert!(ll.src.ends_with("src"));
    assert_eq!(ll.dest, "/spfs/project/src");
}

#[test]
fn bind_source_forms() {
    let mut bm = BindMount { bind: "~/data".to_string(), dest: "/spfs/d".to_string(), readonly: true };
    assert_eq!(bm.source_path("/p", Some("/home/me")), Ok("/home/me/data".to_string()));
    assert_eq!(
        bm.source_path("/p", None),
        Err(Error::ValidationFailed("Cannot resolve ~ without HOME".to_string()))
    );
    bm.bind = "/abs/data".to_string();
    assert_eq!(bm.source_path("/p", None), Ok("/abs/data".to_string()));
    bm.bind = "./rel".to_string();
    assert_eq!(bm.source_path("/p", None), Ok("/p/./rel".to_string()));
}

#[test]
fn bind_source_that_is_missing() {
    let bm = BindMount { bind: "gone".to_string(), dest: "/spfs/g".to_string(), readonly: false };
    assert_eq!(
        bm.to_live_layer_bind("/p/gone", Err("No such file or directory".to_string())),
        Err(Error::ValidationFailed(
            "Bind mount source not found or invalid: /p/gone (No such file or directory)"
                .to_string()
        ))
    );
    assert_eq!(
        bm.to_live_layer_bind("/p/gone", Ok("/real/gone".to_string())),
        Ok(LiveLayerBind { src: "/real/gone".to_string(), dest: "/spfs/g".to_string() })
    );
}
