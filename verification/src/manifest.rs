use vstd::prelude::*;
use vstd::string::StrSliceExecFns;
use vstd::utf8::encode_utf8;

verus! {

/// Whether the bytes parse as a package manifest.
pub uninterp spec fn manifest_parses(bytes: Seq<u8>) -> bool;

/// The workspace member paths the bytes declare; empty when they do not
/// parse or declare no workspace.
pub uninterp spec fn manifest_members(bytes: Seq<u8>) -> Seq<Seq<char>>;

/// For each declared dependency, in name order: its explicit local path, if
/// its entry carries one; empty when the bytes do not parse.
pub uninterp spec fn manifest_dep_paths(bytes: Seq<u8>) -> Seq<Option<Seq<char>>>;

/// The declared package name; absent when the bytes do not parse or declare
/// no package.
pub uninterp spec fn manifest_package_name(bytes: Seq<u8>) -> Option<Seq<char>>;

/// The declared package version; absent when unavailable, for instance
/// workspace-inherited.
pub uninterp spec fn manifest_package_version(bytes: Seq<u8>) -> Option<Seq<char>>;

/// The declared package description, where available.
pub uninterp spec fn manifest_package_description(bytes: Seq<u8>) -> Option<Seq<char>>;

/// The declared package repository, where available.
pub uninterp spec fn manifest_package_repository(bytes: Seq<u8>) -> Option<Seq<char>>;

/// The declared package license, where available.
pub uninterp spec fn manifest_package_license(bytes: Seq<u8>) -> Option<Seq<char>>;

/// The declared package authors; empty when unavailable.
pub uninterp spec fn manifest_package_authors(bytes: Seq<u8>) -> Seq<Seq<char>>;

/// The declared readme path, where the package declares one as a path.
pub uninterp spec fn manifest_readme_path(bytes: Seq<u8>) -> Option<Seq<char>>;

/// The views of a sequence of strings.
pub open spec fn strings_view(s: Seq<String>) -> Seq<Seq<char>> {
    s.map_values(|x: String| x@)
}

/// The views of a sequence of optional strings.
pub open spec fn opt_strings_view(s: Seq<Option<String>>) -> Seq<Option<Seq<char>>> {
    s.map_values(
        |o: Option<String>|
            match o {
                Some(x) => Some(x@),
                None => None,
            },
    )
}

/// The view of an optional string.
pub open spec fn opt_string_view(o: Option<String>) -> Option<Seq<char>> {
    match o {
        Some(x) => Some(x@),
        None => None,
    }
}

/// The manifest could not be used: it did not parse, or it declares no
/// package.
#[derive(Clone, Copy, Debug, PartialEq, Eq, Structural)]
pub enum ManifestError {
    Unparsable,
    NoPackage,
}

/// Relies on cargo_toml::Manifest::from_slice: parses manifest bytes, no
/// file system access; succeeds or fails on the bytes alone.
#[verifier::external_body]
pub(crate) fn parse_ok(bytes: &[u8]) -> (r: bool)
    ensures
        r == manifest_parses(bytes@),
{
    cargo_toml::Manifest::from_slice(bytes).is_ok()
}

/// Relies on cargo_toml::Manifest::from_slice and the Manifest::workspace
/// field: the declared workspace member paths of the bytes.
#[verifier::external_body]
pub(crate) fn workspace_members(bytes: &[u8]) -> (r: Vec<String>)
    ensures
        strings_view(r@) == manifest_members(bytes@),
{
    cargo_toml::Manifest::from_slice(bytes)
        .ok()
        .and_then(|m| m.workspace)
        .map_or(Vec::new(), |w| w.members)
}

/// Relies on cargo_toml::Manifest::from_slice and the
/// Manifest::dependencies map (a BTreeMap, walked in key order): for each
/// dependency, its explicit local path if its entry carries one.
#[verifier::external_body]
pub(crate) fn dependency_paths(bytes: &[u8]) -> (r: Vec<Option<String>>)
    ensures
        opt_strings_view(r@) == manifest_dep_paths(bytes@),
{
    cargo_toml::Manifest::from_slice(bytes).map_or(Vec::new(), |m| {
        m.dependencies
            .values()
            .map(|d| match d {
                cargo_toml::Dependency::Detailed(det) => det.path.clone(),
                cargo_toml::Dependency::Simple(_) => None,
                cargo_toml::Dependency::Inherited(_) => None,
            })
            .collect()
    })
}

/// Relies on cargo_toml::Manifest::from_slice and the Package::name field;
/// `None` when the bytes do not parse or declare no package.
#[verifier::external_body]
pub(crate) fn package_name(bytes: &[u8]) -> (r: Option<String>)
    ensures
        opt_string_view(r) == manifest_package_name(bytes@),
{
    cargo_toml::Manifest::from_slice(bytes).ok().and_then(|m| m.package).map(|p| p.name)
}

/// Relies on cargo_toml::Manifest::from_slice and the Package::version
/// field; `None` when it is workspace-inherited and thus unavailable here.
#[verifier::external_body]
pub(crate) fn package_version(bytes: &[u8]) -> (r: Option<String>)
    ensures
        opt_string_view(r) == manifest_package_version(bytes@),
{
    match cargo_toml::Manifest::from_slice(bytes).ok().and_then(|m| m.package) {
        Some(p) => match p.version {
            cargo_toml::Inheritable::Set(v) => Some(v.to_string()),
            cargo_toml::Inheritable::Inherited => None,
        },
        None => None,
    }
}

/// Relies on cargo_toml::Manifest::from_slice and the Package::description
/// field; `None` when absent or workspace-inherited.
#[verifier::external_body]
pub(crate) fn package_description(bytes: &[u8]) -> (r: Option<String>)
    ensures
        opt_string_view(r) == manifest_package_description(bytes@),
{
    match cargo_toml::Manifest::from_slice(bytes).ok().and_then(|m| m.package) {
        Some(p) => match p.description {
            Some(cargo_toml::Inheritable::Set(s)) => Some(s),
            _ => None,
        },
        None => None,
    }
}

/// Relies on cargo_toml::Manifest::from_slice and the Package::repository
/// field; `None` when absent or workspace-inherited.
#[verifier::external_body]
pub(crate) fn package_repository(bytes: &[u8]) -> (r: Option<String>)
    ensures
        opt_string_view(r) == manifest_package_repository(bytes@),
{
    match cargo_toml::Manifest::from_slice(bytes).ok().and_then(|m| m.package) {
        Some(p) => match p.repository {
            Some(cargo_toml::Inheritable::Set(s)) => Some(s),
            _ => None,
        },
        None => None,
    }
}

/// Relies on cargo_toml::Manifest::from_slice and the Package::license
/// field; `None` when absent or workspace-inherited.
#[verifier::external_body]
pub(crate) fn package_license(bytes: &[u8]) -> (r: Option<String>)
    ensures
        opt_string_view(r) == manifest_package_license(bytes@),
{
    match cargo_toml::Manifest::from_slice(bytes).ok().and_then(|m| m.package) {
        Some(p) => match p.license {
            Some(cargo_toml::Inheritable::Set(s)) => Some(s),
            _ => None,
        },
        None => None,
    }
}

/// Relies on cargo_toml::Manifest::from_slice and the Package::authors
/// field; empty when absent or workspace-inherited.
#[verifier::external_body]
pub(crate) fn package_authors(bytes: &[u8]) -> (r: Vec<String>)
    ensures
        strings_view(r@) == manifest_package_authors(bytes@),
{
    match cargo_toml::Manifest::from_slice(bytes).ok().and_then(|m| m.package) {
        Some(p) => match p.authors {
            cargo_toml::Inheritable::Set(v) => v,
            cargo_toml::Inheritable::Inherited => Vec::new(),
        },
        None => Vec::new(),
    }
}

/// Relies on cargo_toml::Manifest::from_slice and the Package::readme
/// field; the declared readme path, `None` when it is a flag, absent or
/// workspace-inherited.
#[verifier::external_body]
pub(crate) fn package_readme_path(bytes: &[u8]) -> (r: Option<String>)
    ensures
        opt_string_view(r) == manifest_readme_path(bytes@),
{
    match cargo_toml::Manifest::from_slice(bytes).ok().and_then(|m| m.package) {
        Some(p) => match p.readme {
            cargo_toml::Inheritable::Set(cargo_toml::OptionalFile::Path(pb)) => pb.to_str().map(
                |s| s.to_string(),
            ),
            _ => None,
        },
        None => None,
    }
}

/// The UTF-8 bytes of a string.
pub fn string_to_bytes(s: &String) -> (r: Vec<u8>)
    ensures
        r@ == encode_utf8(s@),
{
    s.as_str().as_bytes_vec()
}

/// The values present in a sequence of optional values, in order.
pub open spec fn somes<T>(s: Seq<Option<T>>) -> Seq<T>
    decreases s.len(),
{
    if s.len() == 0 {
        Seq::empty()
    } else {
        (match s.first() {
            Some(v) => seq![v],
            None => Seq::empty(),
        }) + somes(s.drop_first())
    }
}

/// Taking views commutes with dropping the absent entries.
pub proof fn lemma_somes_view(s: Seq<Option<String>>)
    ensures
        strings_view(somes(s)) == somes(opt_strings_view(s)),
    decreases s.len(),
{
    if s.len() == 0 {
        assert(strings_view(somes(s)) =~= somes(opt_strings_view(s)));
    } else {
        lemma_somes_view(s.drop_first());
        assert(opt_strings_view(s.drop_first()) =~= opt_strings_view(s).drop_first());
        assert(opt_strings_view(s).first() == (match s.first() {
            Some(x) => Some(x@),
            None => None,
        }));
        match s.first() {
            Some(x) => {
                assert(somes(s) == seq![x] + somes(s.drop_first()));
                assert(somes(opt_strings_view(s)) == seq![x@] + somes(
                    opt_strings_view(s).drop_first(),
                ));
                assert(strings_view(seq![x] + somes(s.drop_first())) =~= seq![x@]
                    + strings_view(somes(s.drop_first())));
            },
            None => {
                assert(somes(s) == somes(s.drop_first()));
                assert(somes(opt_strings_view(s)) == somes(opt_strings_view(s).drop_first()));
            },
        }
    }
}

/// Drops the absent entries from a list of optional strings, keeping order.
pub fn keep_present(v: Vec<Option<String>>) -> (r: Vec<String>)
    ensures
        r@ == somes(v@),
{
    let ghost orig = v@;
    let mut v = v;
    let mut r: Vec<String> = Vec::new();
    proof {
        assert(r@ + somes(v@) =~= somes(orig));
    }
    while v.len() > 0
        invariant
            r@ + somes(v@) =~= somes(orig),
        decreases v@.len(),
    {
        let ghost vs = v@;
        let x = v.remove(0);
        proof {
            assert(vs.remove(0) =~= vs.drop_first());
            assert(x == vs.first());
        }
        match x {
            Some(s) => {
                let ghost rv = r@;
                r.push(s);
                proof {
                    assert(somes(vs) =~= seq![vs.first()->0] + somes(vs.drop_first()));
                    assert(r@ + somes(v@) =~= rv + somes(vs));
                }
            },
            None => {
                proof {
                    assert(somes(vs) =~= somes(vs.drop_first()));
                }
            },
        }
    }
    proof {
        assert(somes(v@) =~= Seq::<String>::empty());
        assert(r@ =~= r@ + somes(v@));
    }
    r
}

} // verus!
