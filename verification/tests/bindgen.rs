use wrpc_blobstore::bindgen::{Config, ConfigError, CratePath, Opt, Source, WithChoice};
use wrpc_blobstore::expand::{
    dependency_includes, error_chain_message, source_plan, WitLoad,
};
use wrpc_blobstore::input::{opt_keyword, with_choice, OptKeyword, PathSegment, WithPathError};

fn s(x: &str) -> String {
    x.to_string()
}

fn seg(x: &str, has_arguments: bool) -> PathSegment {
    PathSegment { ident: s(x), has_arguments }
}

#[test]
fn second_world_is_refused_at_its_position() {
    let r = Config::from_options(vec![Opt::World(s("a")), Opt::Skip(vec![]), Opt::World(s("b"))]);
    match r {
        Err((i, e)) => {
            assert_eq!(i, 2);
            assert_eq!(e, ConfigError::SecondWorld);
            assert_eq!(e.message(), "cannot specify second world");
        }
        Ok(_) => panic!("expected an error"),
    }
}

#[test]
fn path_and_inline_combine_in_either_order() {
    for opts in [
        vec![Opt::Path(s("deps")), Opt::Inline(s("package a:b;"))],
        vec![Opt::Inline(s("package a:b;")), Opt::Path(s("deps"))],
    ] {
        let cfg = Config::from_options(opts).unwrap();
        match cfg.source {
            Some(Source::Inline(text, Some(dir))) => {
                assert_eq!(text, "package a:b;");
                assert_eq!(dir, "deps");
            }
            other => panic!("unexpected source {other:?}"),
        }
    }
}

#[test]
fn third_source_is_refused() {
    let r = Config::from_options(vec![
        Opt::Path(s("deps")),
        Opt::Inline(s("x")),
        Opt::Path(s("more")),
    ]);
    match r {
        Err((i, e)) => {
            assert_eq!(i, 2);
            assert_eq!(e, ConfigError::SecondSource);
            assert_eq!(e.message(), "cannot specify second source");
        }
        Ok(_) => panic!("expected an error"),
    }
    assert!(Config::from_options(vec![Opt::Path(s("a")), Opt::Path(s("b"))]).is_err());
}

#[test]
fn lists_accumulate_and_settings_are_replaced() {
    let cfg = Config::from_options(vec![
        Opt::Features(vec![s("f1")]),
        Opt::Skip(vec![s("a")]),
        Opt::AdditionalDerives(vec![s("Clone")]),
        Opt::Features(vec![s("f2"), s("f3")]),
        Opt::Skip(vec![s("b")]),
        Opt::AdditionalDerives(vec![s("Hash"), s("Eq")]),
        Opt::CratePath(CratePath::Tokio, s("::tokio")),
        Opt::CratePath(CratePath::Tokio, s("my::tokio")),
        Opt::With(vec![(s("a:b/c"), WithChoice::Generate)]),
        Opt::GenerateAll,
        Opt::GenerateUnusedTypes(true),
        Opt::World(s("w")),
    ])
    .unwrap();
    assert_eq!(cfg.features, vec![s("f1"), s("f2"), s("f3")]);
    assert_eq!(cfg.opts.skip, vec![s("a"), s("b")]);
    assert_eq!(cfg.opts.additional_derive_attributes, vec![s("Hash"), s("Eq")]);
    assert_eq!(cfg.opts.tokio_path, Some(s("my::tokio")));
    assert_eq!(cfg.opts.anyhow_path, None);
    assert_eq!(cfg.opts.with.len(), 1);
    assert!(cfg.opts.generate_by_default);
    assert!(cfg.opts.generate_unused_types);
    assert_eq!(cfg.world, Some(s("w")));
    assert!(cfg.source.is_none());
}

#[test]
fn bare_input_sets_world_and_directory() {
    let cfg = Config::from_world_and_path(Some(s("w")), Some(s("wit/dir")));
    assert_eq!(cfg.world, Some(s("w")));
    assert!(matches!(cfg.source, Some(Source::Path(ref p)) if p == "wit/dir"));
    let empty = Config::from_world_and_path(None, None);
    assert!(empty.world.is_none() && empty.source.is_none());
}

#[test]
fn keywords() {
    assert_eq!(opt_keyword("path"), Some(OptKeyword::Path));
    assert_eq!(opt_keyword("generate_all"), Some(OptKeyword::GenerateAll));
    assert_eq!(opt_keyword("wasm_tokio_path"), Some(OptKeyword::CratePath(CratePath::WasmTokio)));
    assert_eq!(opt_keyword("features"), Some(OptKeyword::Features));
    assert_eq!(opt_keyword("exports"), None);
    assert_eq!(opt_keyword("Path"), None);
    assert!(!OptKeyword::GenerateAll.takes_value());
    assert!(OptKeyword::World.takes_value());
}

#[test]
fn with_paths() {
    match with_choice(false, &vec![seg("generate", false)]) {
        Ok(WithChoice::Generate) => {}
        other => panic!("unexpected {other:?}"),
    }
    match with_choice(true, &vec![seg("generate", false)]) {
        Ok(WithChoice::Path(p)) => assert_eq!(p, "::generate"),
        other => panic!("unexpected {other:?}"),
    }
    match with_choice(false, &vec![seg("crate", false), seg("bindings", false), seg("wasi", false)]) {
        Ok(WithChoice::Path(p)) => assert_eq!(p, "crate::bindings::wasi"),
        other => panic!("unexpected {other:?}"),
    }
    match with_choice(false, &vec![seg("a", false), seg("B", true)]) {
        Err(e) => {
            assert_eq!(e, WithPathError);
            assert_eq!(e.message(), "Module path must not contain angles or parens");
        }
        other => panic!("unexpected {other:?}"),
    }
}

#[test]
fn error_chain() {
    assert_eq!(error_chain_message("top", &vec![]), "top");
    assert_eq!(
        error_chain_message("top", &vec![s("a"), s("b")]),
        "top\n\nCaused by:\n  a\n\nCaused by:\n  b"
    );
}

#[test]
fn includes() {
    assert_eq!(dependency_includes(&vec![]), "");
    assert_eq!(
        dependency_includes(&vec![s("/x/a.wit"), s("/x/b.wit")]),
        "const _: &[u8] = include_bytes!(r#\"/x/a.wit\"#);\nconst _: &[u8] = include_bytes!(r#\"/x/b.wit\"#);\n"
    );
}

#[test]
fn source_plans() {
    let p = source_plan(None);
    assert!(p.dependencies.is_none());
    assert!(matches!(p.main, WitLoad::Directory(ref d) if d == "wit"));
    let p = source_plan(Some(Source::Path(s("other"))));
    assert!(matches!(p.main, WitLoad::Directory(ref d) if d == "other"));
    let p = source_plan(Some(Source::Inline(s("text"), Some(s("deps")))));
    assert_eq!(p.dependencies, Some(s("deps")));
    assert!(matches!(p.main, WitLoad::Inline(ref t) if t == "text"));
}
