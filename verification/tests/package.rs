//! A Typst package's API, read from its manifest and its entry point.

use typst_doc::typ::package::{entrypoint, exports, manifest_entrypoint, read_package, Api, PackageSource};

const MANIFEST: &str =
    "[package]\nname = \"mosaic\"\nversion = \"0.1.0\"\nentrypoint = \"src/lib.typ\"\n";

fn files(root: &str, files: &[(&str, &str)]) -> Vec<(String, String)> {
    files
        .iter()
        .map(|(path, text)| (format!("{root}/{path}"), text.to_string()))
        .collect()
}

#[test]
fn the_manifest_names_the_entry_point() {
    assert_eq!(
        entrypoint("/manifest", MANIFEST).as_deref(),
        Some("/manifest/src/lib.typ")
    );

    // A key outside [package] is somebody else's.
    assert_eq!(
        entrypoint("/manifest-other", "[tool.x]\nentrypoint = \"nope.typ\"\n"),
        None
    );
}

#[test]
fn the_entry_point_names_the_api() {
    let root = "/api";
    let package = read_package(&files(
        root,
        &[
            (
                "src/lib.typ",
                "#import \"component/image.typ\": image\n\
                 #import \"layout/image.typ\" as layout\n\
                 #import \"component/caption.typ\": caption as label-caption\n",
            ),
            ("src/component/image.typ", "#let image(src) = { }\n"),
            ("src/component/caption.typ", "#let caption(body) = { }\n"),
            ("src/layout/image.typ", "#let image(area) = { }\n#let grid(cols) = { }\n"),
            ("src/internal/util.typ", "#let helper() = { }\n"),
        ],
    ));
    let exports = exports(&entrypoint(root, MANIFEST).expect("a manifest"), &package);
    let public = |file: &str, name: &str| exports.get(&format!("{root}/{file}"), name).cloned();

    // Two `image` definitions, one API: the module alias separates them,
    // which is the only way Typst can expose both.
    assert_eq!(public("src/component/image.typ", "image"), Some("image".into()));
    assert_eq!(public("src/layout/image.typ", "image"), Some("layout.image".into()));
    // Everything behind a module alias comes with it.
    assert_eq!(public("src/layout/image.typ", "grid"), Some("layout.grid".into()));
    // `as` renames the export, not the definition.
    assert_eq!(
        public("src/component/caption.typ", "caption"),
        Some("label-caption".into())
    );
    // What the entry point never mentions is not public.
    assert_eq!(public("src/internal/util.typ", "helper"), None);
}

#[test]
fn a_re_export_is_followed_to_the_definition() {
    let root = "/chain";
    let package = read_package(&files(
        root,
        &[
            ("src/lib.typ", "#import \"middle.typ\": deep\n"),
            ("src/middle.typ", "#import \"leaf.typ\": deep\n"),
            ("src/leaf.typ", "#let deep() = { }\n"),
        ],
    ));
    let exports = exports(&entrypoint(root, MANIFEST).expect("a manifest"), &package);

    // The name is public, and it belongs to the file that defines it.
    assert_eq!(
        exports.get("/chain/src/leaf.typ", "deep"),
        Some(&"deep".to_owned())
    );
}

#[test]
fn a_package_import_and_an_import_cycle_both_terminate() {
    let root = "/cycle";
    let package = read_package(&files(
        root,
        &[
            (
                "src/lib.typ",
                "#import \"@preview/other:1.0.0\": thing\n#import \"a.typ\": one\n",
            ),
            ("src/a.typ", "#import \"b.typ\": one\n#let two() = { }\n"),
            ("src/b.typ", "#import \"a.typ\": two\n#let one() = { }\n"),
        ],
    ));
    let exports = exports(&entrypoint(root, MANIFEST).expect("a manifest"), &package);

    // `@preview` is somebody else's API and is not followed.
    assert!(!exports.public_names().iter().any(|name| name == "thing"));
    assert_eq!(exports.get("/cycle/src/b.typ", "one"), Some(&"one".to_owned()));
}

#[test]
fn a_wildcard_and_a_bare_import_reach_through() {
    let root = "/wild";
    let package = read_package(&files(
        root,
        &[
            ("src/lib.typ", "#import \"parts/./shapes.typ\": *\n#import \"extra/../more.typ\"\n"),
            ("src/parts/shapes.typ", "#let circle(r) = { }\n"),
            ("src/more.typ", "#let square(s) = { }\n"),
        ],
    ));
    let exports = exports(&entrypoint(root, MANIFEST).expect("a manifest"), &package);
    assert_eq!(exports.get("/wild/src/parts/shapes.typ", "circle"), Some(&"circle".to_owned()));
    assert_eq!(exports.get("/wild/src/more.typ", "square"), Some(&"more.square".to_owned()));
    assert_eq!(exports.len(), 2);
}

#[test]
fn a_manifest_entry_must_be_a_quoted_string() {
    assert_eq!(manifest_entrypoint("[package]\nentrypoint = lib.typ\n"), None);
    assert_eq!(manifest_entrypoint("[package]\nentrypoint \"lib.typ\"\n"), None);
    assert_eq!(
        manifest_entrypoint("  [package]  \n  entrypoint=  \"a/b.typ\" # x\n").as_deref(),
        Some("a/b.typ")
    );
    assert_eq!(manifest_entrypoint(""), None);
}

#[test]
fn the_api_covers_the_files_of_its_packages() {
    let packages = vec![
        PackageSource {
            root: "/one".to_owned(),
            manifest: Some(MANIFEST.to_owned()),
            files: files("/one", &[("src/lib.typ", "#let hello() = { }\n#import \"x.typ\": *\n"), ("src/x.typ", "#let x() = { }\n")]),
        },
        PackageSource {
            root: "/one".to_owned(),
            manifest: Some(MANIFEST.to_owned()),
            files: Vec::new(),
        },
        PackageSource {
            root: "/none".to_owned(),
            manifest: None,
            files: Vec::new(),
        },
    ];
    let api = Api::discover(&packages);
    assert_eq!(api.entrypoints, vec!["/one/src/lib.typ"]);
    assert!(api.covers("/one/src/anything.typ"));
    assert!(api.covers("/one/src/../src/x.typ"));
    assert!(!api.covers("/onetwo/src/x.typ"));
    assert!(!api.covers("/none/src/x.typ"));
    assert_eq!(api.public_name("/one/src/x.typ", "x"), Some(&"x".to_owned()));
    assert_eq!(api.public_name("/one/src/lib.typ", "hello"), None);
}

#[test]
fn a_file_searched_once_for_a_name_is_not_searched_again() {
    let root = "/once";
    let package = read_package(&files(
        root,
        &[
            ("src/lib.typ", "#import \"a.typ\": x\n"),
            (
                "src/a.typ",
                "#import \"b.typ\": p as x\n#import \"b.typ\": *\n",
            ),
            ("src/b.typ", "#let x = 1\n"),
        ],
    ));
    let exports = exports(&entrypoint(root, MANIFEST).expect("a manifest"), &package);

    // Looking for `x` searches `b.typ` for `p` first; the wildcard import
    // that follows would find `x` there, but `b.typ` has been searched.
    assert_eq!(exports.len(), 0);
}

#[test]
fn a_later_path_to_a_definition_replaces_an_earlier_one() {
    let root = "/twice";
    let package = read_package(&files(
        root,
        &[
            (
                "src/lib.typ",
                "#import \"util.typ\": helper\n#import \"util.typ\" as util\n",
            ),
            ("src/util.typ", "#let helper() = { }\n"),
        ],
    ));
    let exports = exports(&entrypoint(root, MANIFEST).expect("a manifest"), &package);
    assert_eq!(exports.len(), 1);
    assert_eq!(
        exports.get("/twice/src/util.typ", "helper"),
        Some(&"util.helper".to_owned())
    );
}
