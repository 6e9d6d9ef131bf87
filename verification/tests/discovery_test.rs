use faber_package::layout::{
    legacy_package_name, manifest_candidates, manifest_entry_path, package_input, BuildLayout, InputProbe, PackageInput,
};
use faber_package::naming::sanitize_crate_name;

// ── sanitize_crate_name ───────────────────────────────────────────────────

#[test]
fn sanitize_crate_name_passes_through_simple_name() {
    assert_eq!(sanitize_crate_name("hello"), "hello");
}

#[test]
fn sanitize_crate_name_lowercases() {
    assert_eq!(sanitize_crate_name("HelloWorld"), "helloworld");
}

#[test]
fn sanitize_crate_name_preserves_hyphens_and_underscores() {
    assert_eq!(sanitize_crate_name("my-crate_name"), "my-crate_name");
}

#[test]
fn sanitize_crate_name_replaces_special_chars_with_hyphen() {
    assert_eq!(sanitize_crate_name("hello.world!"), "hello-world");
}

#[test]
fn sanitize_crate_name_trims_leading_and_trailing_separators() {
    assert_eq!(sanitize_crate_name("--hello--"), "hello");
}

#[test]
fn sanitize_crate_name_falls_back_to_package_when_all_removed() {
    assert_eq!(sanitize_crate_name("---"), "package");
    assert_eq!(sanitize_crate_name("!!!"), "package");
}

#[test]
fn sanitize_crate_name_handles_empty_string() {
    assert_eq!(sanitize_crate_name(""), "package");
}

#[test]
fn sanitize_crate_name_handles_whitespace_only() {
    assert_eq!(sanitize_crate_name("   "), "package");
}

#[test]
fn sanitize_crate_name_prefixes_with_p_when_starts_with_digit() {
    assert_eq!(sanitize_crate_name("123abc"), "p-123abc");
}

#[test]
fn sanitize_crate_name_prefixes_with_p_when_sanitized_result_starts_with_digit() {
    assert_eq!(sanitize_crate_name("_1name"), "p-1name");
}

#[test]
fn sanitize_crate_name_mixed_characters_and_digits() {
    assert_eq!(sanitize_crate_name("Foo_Bar-42"), "foo_bar-42");
}

#[test]
fn sanitize_crate_name_complex_with_special_characters() {
    assert_eq!(
        sanitize_crate_name("My@Awesome#Package$1.0"),
        "my-awesome-package-1-0"
    );
}

#[test]
fn sanitize_crate_name_maps_non_ascii_letters_to_separators() {
    assert_eq!(sanitize_crate_name("café"), "caf");
    assert_eq!(sanitize_crate_name("\tname\n"), "name");
}

// ── BuildLayout::from_package_root ────────────────────────────────────────

#[test]
fn build_layout_from_package_root_sets_debug_binary() {
    let layout = BuildLayout::from_package_root("/tmp/my-pkg", "my-package");
    assert_eq!(layout.debug_binary, "/tmp/my-pkg/target/debug/my-package");
}

#[test]
fn build_layout_from_package_root_sets_release_binary() {
    let layout = BuildLayout::from_package_root("/tmp/my-pkg", "my-package");
    assert_eq!(layout.release_binary, "/tmp/my-pkg/target/release/my-package");
}

#[test]
fn build_layout_from_package_root_sets_generated_crate_paths() {
    let layout = BuildLayout::from_package_root("/tmp/my-pkg", "my-package");
    assert_eq!(layout.generated_crate_root, "/tmp/my-pkg/target/faber");
    assert_eq!(
        layout.generated_cargo_manifest,
        "/tmp/my-pkg/target/faber/Cargo.toml"
    );
    assert_eq!(
        layout.generated_rust_entry,
        "/tmp/my-pkg/target/faber/src/main.rs"
    );
}

#[test]
fn build_layout_from_package_root_sets_manifest_path() {
    let layout = BuildLayout::from_package_root("/tmp/my-pkg", "my-pkg");
    assert_eq!(layout.manifest_path, "/tmp/my-pkg/faber.toml");
}

#[test]
fn build_layout_from_package_root_normalizes_path() {
    let layout = BuildLayout::from_package_root("/tmp/./my-pkg/../my-pkg", "name");
    assert_eq!(layout.package_root, "/tmp/my-pkg");
}

#[test]
fn build_layout_binary_name_returns_sanitized_name() {
    let layout = BuildLayout::from_package_root("/tmp/pkg", "My-Package");
    assert_eq!(layout.binary_name(), "my-package");
}

#[test]
fn build_layout_at_filesystem_root_and_relative_roots() {
    let layout = BuildLayout::from_package_root("/", "x");
    assert_eq!(layout.cargo_target_dir, "/target");
    let layout = BuildLayout::from_package_root("a/b/../../..", "x");
    assert_eq!(layout.package_root, "..");
    let layout = BuildLayout::from_package_root("./", "x");
    assert_eq!(layout.package_root, ".");
    assert_eq!(layout.debug_binary, "./target/debug/x");
}

#[test]
fn build_layout_binary_name_falls_back_to_package() {
    let mut layout = BuildLayout::from_package_root("/tmp/pkg", "name");
    layout.debug_binary = "/tmp/..".to_owned();
    assert_eq!(layout.binary_name(), "package");
    layout.debug_binary = "/".to_owned();
    assert_eq!(layout.binary_name(), "package");
    layout.debug_binary = "/tmp/bin/./".to_owned();
    assert_eq!(layout.binary_name(), "bin");
}

#[test]
fn manifest_entries_resolve_under_the_source_directory() {
    assert_eq!(manifest_entry_path("src", "main.fab"), "src/main.fab");
    assert_eq!(manifest_entry_path("src/", "main.fab"), "src/main.fab");
    assert_eq!(manifest_entry_path("", "main.fab"), "main.fab");
    assert_eq!(manifest_entry_path("src", "/abs/main.fab"), "/abs/main.fab");
}

#[test]
fn manifest_candidates_run_from_the_file_directory_up() {
    assert_eq!(
        manifest_candidates("/a/b/c.fab"),
        vec!["/a/b/faber.toml".to_owned(), "/a/faber.toml".to_owned(), "/faber.toml".to_owned()]
    );
    assert_eq!(manifest_candidates("x/y.fab"), vec!["x/faber.toml".to_owned(), "faber.toml".to_owned()]);
    assert_eq!(manifest_candidates("/"), Vec::<String>::new());
    assert_eq!(manifest_candidates(""), Vec::<String>::new());
}

#[test]
fn a_manifest_file_is_its_own_packages_manifest() {
    let r = package_input("/work/pkg/faber.toml", InputProbe::ManifestFile);
    assert_eq!(
        r,
        PackageInput::Manifest { manifest: "/work/pkg/faber.toml".to_owned(), root: "/work/pkg".to_owned(), named_entry: None }
    );
}

#[test]
fn a_directory_is_a_package_root() {
    let backed = package_input("/work/pkg", InputProbe::Directory { has_manifest: true });
    assert_eq!(
        backed,
        PackageInput::Manifest { manifest: "/work/pkg/faber.toml".to_owned(), root: "/work/pkg".to_owned(), named_entry: None }
    );
    let legacy = package_input("/work/pkg", InputProbe::Directory { has_manifest: false });
    assert_eq!(legacy, PackageInput::Legacy { root: "/work/pkg".to_owned(), entry: "/work/pkg/main.fab".to_owned() });
}

#[test]
fn a_file_enters_the_package_of_the_nearest_manifest() {
    let backed = package_input(
        "/work/pkg/src/app.fab",
        InputProbe::File { nearest_manifest: Some("/work/pkg/faber.toml".to_owned()) },
    );
    assert_eq!(
        backed,
        PackageInput::Manifest {
            manifest: "/work/pkg/faber.toml".to_owned(),
            root: "/work/pkg".to_owned(),
            named_entry: Some("/work/pkg/src/app.fab".to_owned()),
        }
    );
    let legacy = package_input("/work/loose/app.fab", InputProbe::File { nearest_manifest: None });
    assert_eq!(legacy, PackageInput::Legacy { root: "/work/loose".to_owned(), entry: "/work/loose/app.fab".to_owned() });
    let top = package_input("/app.fab", InputProbe::File { nearest_manifest: None });
    assert_eq!(top, PackageInput::Legacy { root: "/".to_owned(), entry: "/app.fab".to_owned() });
}

#[test]
fn a_legacy_package_builds_under_its_directory_name() {
    assert_eq!(legacy_package_name("/work/My Tool"), "My Tool");
    assert_eq!(legacy_package_name("/"), "package");
    assert_eq!(legacy_package_name("/work/.."), "package");
    let layout = BuildLayout::from_package_root("/work/loose", &legacy_package_name("/work/loose"));
    assert_eq!(layout.binary_name(), "loose");
}

#[test]
fn sanitizing_a_sanitized_name_changes_nothing() {
    for name in ["My Package", "9lives", "--x--", "", "a.b.c", "héllo wörld", "_under_"] {
        let once = sanitize_crate_name(name);
        assert_eq!(sanitize_crate_name(&once), once, "{name}");
        let first = once.chars().next().unwrap();
        assert!(!first.is_ascii_digit() && first != '-' && first != '_', "{name}");
        assert!(!once.ends_with('-') && !once.ends_with('_'), "{name}");
    }
}
