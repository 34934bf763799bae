use boids::paths::{join_paths, leads_out, paths_agree, Platform};
use boids::wgsl::{
    include_target, ShaderError, ShaderFile, ShaderLoader, ShaderTree, Stop,
    NOT_FOUND,
};

const ROOT: &str = "/w/crates/boids-core/../../shaders";

fn loader() -> ShaderLoader {
    ShaderLoader::workspace_default("/w/crates/boids-core")
}

fn tree(files: &[(&str, &str)]) -> ShaderTree {
    ShaderTree {
        root_is_dir: true,
        files: files
            .iter()
            .map(|(path, text)| ShaderFile {
                path: format!("{ROOT}/{path}"),
                text: Ok((*text).to_string()),
            })
            .collect(),
    }
}

/// A small shader directory: three shared headers, a file that asks for one header twice, and a ring.
fn shaders() -> ShaderTree {
    tree(&[
        ("common/layout.wgsl", "struct Boid { pos: vec3<f32> }\n"),
        ("common/math_common.wgsl", "fn saturate(x: f32) -> f32 { return x; }\n"),
        (
            "common/sdf.wgsl",
            "//#include \"common/math_common.wgsl\"\nfn sdf() -> f32 { return 0.0; }\n",
        ),
        ("tests/dedup_header.wgsl", "fn dedup_probe() {}\n"),
        (
            "tests/dedup.wgsl",
            "//#include \"tests/dedup_header.wgsl\"\n//#include \"tests/dedup_header.wgsl\"\nfn main() {}\n",
        ),
        ("tests/cycle_a.wgsl", "//#include \"tests/cycle_b.wgsl\"\n"),
        ("tests/cycle_b.wgsl", "//#include \"tests/cycle_a.wgsl\"\n"),
    ])
}

#[test]
fn directive_parsing() {
    assert_eq!(include_target("//#include \"a.wgsl\""), Some(Ok("a.wgsl")));
    assert_eq!(include_target("  //#include \"a.wgsl\""), None);
    assert_eq!(include_target("// #include \"a.wgsl\""), None);
    assert_eq!(include_target("var a = 1;"), None);
    assert!(matches!(include_target("//#include a.wgsl"), Some(Err(()))));
    assert!(matches!(include_target("//#include \"\""), Some(Err(()))));
}

#[test]
fn directives_tolerate_white_space_and_nothing_else() {
    assert_eq!(include_target("//#include\"a\""), Some(Ok("a")));
    assert_eq!(include_target("//#include \t\u{3000}\"a b\" \u{a0}"), Some(Ok("a b")));
    assert_eq!(include_target("//#include \"a\"b\""), Some(Ok("a\"b")));
    assert_eq!(include_target("//#include \""), Some(Err(())));
    assert_eq!(include_target("//#include"), Some(Err(())));
    assert_eq!(include_target("//#include \"a\" // note"), Some(Err(())));
    assert_eq!(include_target("//#includes \"a\""), Some(Err(())));
    assert_eq!(include_target("//#includ"), None);
}

#[test]
fn rejects_paths_escaping_the_root() {
    let l = loader();
    assert!(matches!(
        l.compile("../Cargo.toml", &shaders()),
        Err(ShaderError::EscapesRoot { .. })
    ));
    assert!(matches!(
        l.compile("shaders/common/../../Cargo.toml", &shaders()),
        Err(ShaderError::EscapesRoot { .. })
    ));
}

#[test]
fn missing_file_is_an_error_not_a_panic() {
    let l = loader();
    assert!(matches!(
        l.compile("definitely/not/here.wgsl", &shaders()),
        Err(ShaderError::Io { .. })
    ));
}

#[test]
fn missing_root_is_reported_clearly() {
    let l = ShaderLoader::new("/nonexistent/shader/root");
    let nothing = ShaderTree { root_is_dir: false, files: Vec::new() };
    assert!(matches!(l.compile("x.wgsl", &nothing), Err(ShaderError::MissingRoot(_))));
}

#[test]
fn workspace_root_exists_and_holds_the_shared_headers() {
    let l = loader();
    assert_eq!(l.root(), ROOT);
    for name in [
        "common/layout.wgsl",
        "common/math_common.wgsl",
        "common/sdf.wgsl",
    ] {
        let c = l
            .compile(name, &shaders())
            .unwrap_or_else(|e| panic!("compiling {name}: {}", e.message()));
        assert!(!c.source.contains("//#include"), "{name} left an unresolved include");
        assert!(
            !c.sources.is_empty(),
            "{name} produced no provenance information"
        );
    }
}

#[test]
fn includes_are_deduplicated() {
    let l = loader();
    let c = l.compile("tests/dedup.wgsl", &shaders()).expect("dedup shader");
    let count = c.source.matches("fn dedup_probe").count();
    assert_eq!(count, 1, "header was inlined {count} times");
}

#[test]
fn include_cycle_is_an_error() {
    let l = loader();
    assert!(matches!(
        l.compile("tests/cycle_a.wgsl", &shaders()),
        Err(ShaderError::Cycle(_))
    ));
}

#[test]
fn a_ring_below_the_entry_is_an_error_too() {
    let ring = tree(&[
        ("main.wgsl", "//#include \"a.wgsl\"\n"),
        ("a.wgsl", "//#include \"b.wgsl\"\n"),
        ("b.wgsl", "//#include \"./a.wgsl\"\n"),
    ]);
    match loader().compile("main.wgsl", &ring) {
        Err(ShaderError::Cycle(chain)) => {
            assert_eq!(
                chain,
                vec![
                    format!("{ROOT}/main.wgsl"),
                    format!("{ROOT}/a.wgsl"),
                    format!("{ROOT}/b.wgsl"),
                    format!("{ROOT}/./a.wgsl"),
                ]
            );
        }
        other => panic!("expected a cycle, got {other:?}"),
    }
}

#[test]
fn a_file_that_asks_for_itself_is_a_cycle() {
    let own = tree(&[("a.wgsl", "x\n//#include \"a.wgsl\"\n")]);
    let error = loader().compile("a.wgsl", &own).unwrap_err();
    assert_eq!(
        error.message(),
        format!("include cycle: -> {ROOT}/a.wgsl -> {ROOT}/a.wgsl")
    );
}

#[test]
fn expansion_is_marked_and_repeats_are_remarked() {
    let files = tree(&[
        ("main.wgsl", "a\r\n//#include \"h.wgsl\"\nb\n//#include \"h.wgsl\"\nlast"),
        ("h.wgsl", "h1\n\nh2\n"),
    ]);
    let c = loader().compile("main.wgsl", &files).expect("compiles");
    assert_eq!(
        c.source,
        "a\n// >>> h.wgsl\nh1\n\nh2\n// <<< h.wgsl\nb\n// (already included) h.wgsl\nlast\n"
    );
    assert_eq!(
        c.sources,
        vec![format!("{ROOT}/main.wgsl"), format!("{ROOT}/h.wgsl")]
    );
}

#[test]
fn two_spellings_of_a_path_are_one_file() {
    let files = tree(&[
        (
            "main.wgsl",
            "//#include \"c/h.wgsl\"\n//#include \"c//./h.wgsl\"\n",
        ),
        ("c/h.wgsl", "h\n"),
    ]);
    let c = loader().compile("main.wgsl", &files).expect("compiles");
    assert_eq!(c.sources.len(), 2);
    assert!(c.source.contains("// (already included) c//./h.wgsl\n"));
    for platform in [Platform::Unix, Platform::Windows] {
        assert!(paths_agree(platform, "/a//b/./c", "/a/b/c"));
        assert!(!paths_agree(platform, "/a/b", "a/b"));
        assert!(!paths_agree(platform, "a/b", "a/../a/b"));
        assert!(!paths_agree(platform, "./a", "a"));
        assert_eq!(join_paths(platform, "a/", "b"), "a/b");
        assert_eq!(join_paths(platform, "", "b"), "b");
    }
    assert!(paths_agree(Platform::Windows, "c:\\a/b", "C:/a\\b\\."));
    assert!(!paths_agree(Platform::Windows, "c:\\a", "c:a"));
    assert!(!paths_agree(Platform::Windows, "c:\\a", "d:\\a"));
    assert!(!paths_agree(Platform::Unix, "c:\\a/b", "C:/a\\b"));
}

#[test]
fn paths_are_joined_as_the_platform_writes_them() {
    assert_eq!(join_paths(Platform::Unix, "/s", "a/b"), "/s/a/b");
    assert_eq!(join_paths(Platform::Unix, "s\\", "a"), "s\\/a");
    assert_eq!(join_paths(Platform::Windows, "C:\\s", "a/b"), "C:\\s\\a/b");
    assert_eq!(join_paths(Platform::Windows, "C:\\s\\", "a"), "C:\\s\\a");
    assert_eq!(join_paths(Platform::Windows, "C:", "a"), "C:a");
    // Nothing resolves a path that is taken literally, so it is written out.
    let literal = |path| join_paths(Platform::Windows, "\\\\?\\C:\\w\\\\crates", path);
    assert_eq!(literal("a/./b"), "\\\\?\\C:\\w\\crates\\a\\b");
    assert_eq!(literal("..\\shaders"), "\\\\?\\C:\\w\\shaders");
    assert_eq!(literal("../../../a"), "\\\\?\\C:\\a");
    assert_eq!(literal(""), "\\\\?\\C:\\w\\\\crates\\");
    assert_eq!(
        join_paths(Platform::Windows, "\\\\?\\UNC\\server\\share", "../a"),
        "\\\\?\\UNC\\server\\share\\a"
    );
    assert_eq!(
        ShaderLoader::workspace_on("C:\\w\\crates\\boids", Platform::Windows).root(),
        "C:\\w\\crates\\boids\\..\\..\\shaders"
    );
    assert_eq!(
        ShaderLoader::workspace_on("\\\\?\\C:\\w\\crates\\boids", Platform::Windows).root(),
        "\\\\?\\C:\\w\\shaders"
    );
}

#[test]
fn the_machine_decides_how_paths_are_written() {
    let joined = std::path::Path::new("/s").join("a/b");
    assert_eq!(ShaderLoader::new("/s").resolve("a/b").unwrap(), joined.to_str().unwrap());
    let expected = Platform::of_backslash(std::path::MAIN_SEPARATOR == '\\');
    assert_eq!(ShaderLoader::new("/s").platform(), expected);
    assert_eq!(ShaderLoader::workspace_default("/s").platform(), expected);
}

#[test]
fn every_platform_refuses_what_leads_out_there() {
    let refused = |platform, path| {
        let r = ShaderLoader::for_platform("C:\\s", platform).resolve(path);
        assert_eq!(leads_out(platform, path), r.is_err());
        match r {
            Err(ShaderError::EscapesRoot { target }) => {
                assert_eq!(target, path);
                true
            }
            _ => false,
        }
    };
    for path in ["../a", "a/../b", "/a", ".."] {
        assert!(refused(Platform::Unix, path) && refused(Platform::Windows, path), "{path}");
    }
    for path in ["..\\a", "a\\..\\b", "a/..\\b", "\\a", "C:\\a", "c:a", "\\\\server\\share\\a"] {
        assert!(refused(Platform::Windows, path), "{path}");
        assert!(!refused(Platform::Unix, path), "{path}");
    }
    for path in ["a", "a/b.wgsl", "./a", "..a/b", "a:b", ""] {
        assert!(!refused(Platform::Unix, path), "{path}");
        assert_eq!(refused(Platform::Windows, path), path == "a:b", "{path}");
    }
}

#[test]
fn a_backslash_separates_on_windows() {
    let windows = ShaderLoader::for_platform("C:\\s", Platform::Windows);
    let file = |path: &str, text: &str| ShaderFile {
        path: path.to_string(),
        text: Ok(text.to_string()),
    };
    let tree = ShaderTree {
        root_is_dir: true,
        files: vec![
            file("C:\\s\\m.wgsl", "//#include \"c/h.wgsl\"\n//#include \"c\\h.wgsl\"\n"),
            file("C:\\s\\c\\h.wgsl", "h\n"),
        ],
    };
    let c = windows.compile("m.wgsl", &tree).expect("compiles");
    assert_eq!(c.sources, ["C:\\s\\m.wgsl", "C:\\s\\c/h.wgsl"]);
    assert_eq!(
        c.source,
        "// >>> c/h.wgsl\nh\n// <<< c/h.wgsl\n// (already included) c\\h.wgsl\n"
    );
}

#[test]
fn malformed_directives_name_their_line() {
    let files = tree(&[("m.wgsl", "ok\n//#include h.wgsl\n")]);
    let error = loader().compile("m.wgsl", &files).unwrap_err();
    assert_eq!(
        error.message(),
        format!("malformed include at {ROOT}/m.wgsl:2: //#include h.wgsl")
    );
}

#[test]
fn every_failure_is_put_into_words() {
    let l = ShaderLoader::new("/s");
    let none = ShaderTree { root_is_dir: false, files: Vec::new() };
    assert_eq!(
        l.compile("a", &none).unwrap_err().message(),
        "shader root does not exist: /s"
    );
    let empty = ShaderTree { root_is_dir: true, files: Vec::new() };
    assert_eq!(
        l.compile("a", &empty).unwrap_err().message(),
        format!("reading /s/a: {NOT_FOUND}")
    );
    assert_eq!(
        l.compile("/a", &empty).unwrap_err().message(),
        "include target escapes the shader root: /a"
    );
    let broken = ShaderTree {
        root_is_dir: true,
        files: vec![ShaderFile {
            path: "/s/a".to_string(),
            text: Err("permission denied".to_string()),
        }],
    };
    assert_eq!(
        l.compile("a", &broken).unwrap_err().message(),
        "reading /s/a: permission denied"
    );
}

#[test]
fn files_can_be_read_one_at_a_time() {
    let all = shaders();
    let l = loader();
    let mut read = ShaderTree { root_is_dir: true, files: Vec::new() };
    let mut asked = Vec::new();
    let shader = loop {
        match l.compile_step("common/sdf.wgsl", &read) {
            Ok(shader) => break shader,
            Err(Stop::Need(path)) => {
                let text = all
                    .files
                    .iter()
                    .find(|f| f.path == path)
                    .map(|f| f.text.clone())
                    .expect("the file exists");
                asked.push(path.clone());
                read.files.push(ShaderFile { path, text });
            }
            Err(Stop::Error(e)) => panic!("{}", e.message()),
        }
    };
    assert_eq!(
        asked,
        vec![
            format!("{ROOT}/common/sdf.wgsl"),
            format!("{ROOT}/common/math_common.wgsl"),
        ]
    );
    assert_eq!(
        shader.source,
        l.compile("common/sdf.wgsl", &all).expect("compiles").source
    );
}
