use cargo_onefile::manifest::ManifestError;
use cargo_onefile::metadata::ProjectMetadata;
use cargo_onefile::roots::{Provenance, resolve_roots};

fn bytes(s: &str) -> Vec<u8> {
    s.as_bytes().to_vec()
}

fn full_manifest() -> Vec<u8> {
    bytes(
        "[package]\n\
         name = \"demo\"\n\
         version = \"1.2.3\"\n\
         description = \"A thing\"\n\
         license = \"MIT\"\n\
         authors = [\"A <a@x>\", \"B <b@x>\"]\n\
         repository = \"https://example.com/demo\"\n\
         readme = \"README.md\"\n",
    )
}

#[test]
fn from_manifest_extracts_package_fields() {
    let (m, readme_path) = ProjectMetadata::from_manifest(&full_manifest()).unwrap();
    assert_eq!(m.name, "demo");
    assert_eq!(m.version, "1.2.3");
    assert_eq!(m.description.as_deref(), Some("A thing"));
    assert_eq!(m.license.as_deref(), Some("MIT"));
    assert_eq!(m.repository.as_deref(), Some("https://example.com/demo"));
    assert_eq!(m.authors, vec!["A <a@x>".to_string(), "B <b@x>".to_string()]);
    assert!(m.readme.is_none());
    assert_eq!(readme_path.as_deref(), Some("README.md"));
}

#[test]
fn unparsable_manifest_is_an_error() {
    let r = ProjectMetadata::from_manifest(&bytes("not toml ["));
    assert_eq!(r.err().unwrap(), ManifestError::Unparsable);
}

#[test]
fn manifest_without_package_is_an_error() {
    let r = ProjectMetadata::from_manifest(&bytes("[workspace]\nmembers = []\n"));
    assert_eq!(r.err().unwrap(), ManifestError::NoPackage);
}

#[test]
fn format_renders_every_declared_field() {
    let (mut m, _) = ProjectMetadata::from_manifest(&full_manifest()).unwrap();
    m.readme = Some("Line one\nLine two".to_string());
    let expected = "// Project: demo (v1.2.3)\n\
                    // Description: A thing\n\
                    // Authors: A <a@x>, B <b@x>\n\
                    // License: MIT\n\
                    // Repository: https://example.com/demo\n\
                    \n\
                    // README\n\
                    // ======\n\
                    // Line one\n\
                    // Line two\n\
                    // ======\n\n";
    assert_eq!(m.format(), expected);
}

#[test]
fn format_of_a_minimal_package_is_just_the_project_line() {
    let manifest = bytes("[package]\nname = \"tiny\"\nversion = \"0.1.0\"\n");
    let (m, readme_path) = ProjectMetadata::from_manifest(&manifest).unwrap();
    assert!(readme_path.is_none());
    assert_eq!(m.format(), "// Project: tiny (v0.1.0)\n\n");
}

#[test]
fn format_keeps_readme_blank_lines_and_adds_no_extra_one() {
    let manifest = bytes("[package]\nname = \"t\"\nversion = \"0.1.0\"\n");
    let (mut m, _) = ProjectMetadata::from_manifest(&manifest).unwrap();
    m.readme = Some("a\n\nb\n".to_string());
    let expected = "// Project: t (v0.1.0)\n\n// README\n// ======\n// a\n// \n// b\n// ======\n\n";
    assert_eq!(m.format(), expected);
}

#[test]
fn resolve_roots_orders_includes_members_manifest_dir_dependencies() {
    let manifest = bytes(
        "[workspace]\n\
         members = [\"crates/x\"]\n\
         [package]\n\
         name = \"demo\"\n\
         version = \"0.1.0\"\n\
         [dependencies]\n\
         dep1 = { path = \"../dep1\" }\n\
         dep2 = \"1.0\"\n",
    );
    let parent = bytes("/proj");
    let includes = vec![bytes("/inc/extra.rs")];
    let roots = resolve_roots(&manifest, &parent, includes, true).unwrap();
    let got: Vec<(Vec<u8>, Provenance)> =
        roots.into_iter().map(|r| (r.path, r.provenance)).collect();
    assert_eq!(
        got,
        vec![
            (bytes("/inc/extra.rs"), Provenance::ExplicitInclude),
            (bytes("/proj/crates/x"), Provenance::WorkspaceMember),
            (bytes("/proj"), Provenance::ManifestDir),
            (bytes("/proj/../dep1"), Provenance::Dependency),
        ]
    );
}

#[test]
fn resolve_roots_without_dependencies_skips_them() {
    let manifest = bytes("[package]\nname = \"demo\"\nversion = \"0.1.0\"\n[dependencies]\ndep1 = { path = \"../dep1\" }\n");
    let parent = bytes("proj");
    let roots = resolve_roots(&manifest, &parent, Vec::new(), false).unwrap();
    let got: Vec<(Vec<u8>, Provenance)> =
        roots.into_iter().map(|r| (r.path, r.provenance)).collect();
    assert_eq!(got, vec![(bytes("proj"), Provenance::ManifestDir)]);
}

#[test]
fn resolve_roots_refuses_unparsable_manifest() {
    let r = resolve_roots(&bytes("] nope"), &bytes("/p"), Vec::new(), false);
    assert_eq!(r.err().unwrap(), ManifestError::Unparsable);
}

#[test]
fn workspace_inherited_version_is_left_empty() {
    let manifest = bytes("[package]\nname = \"t\"\nversion.workspace = true\n");
    let (m, _) = ProjectMetadata::from_manifest(&manifest).unwrap();
    assert_eq!(m.name, "t");
    assert_eq!(m.version, "");
}
