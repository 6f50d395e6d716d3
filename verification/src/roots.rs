use vstd::prelude::*;
use vstd::utf8::encode_utf8;
use crate::manifest::{ManifestError, dependency_paths, keep_present, lemma_somes_view,
    manifest_dep_paths, manifest_members, manifest_parses, opt_strings_view, parse_ok, somes,
    string_to_bytes, strings_view, workspace_members};
use crate::path::join_spec;

verus! {

/// Where a search root came from.
#[derive(Clone, Copy, Debug, PartialEq, Eq, Structural)]
pub enum Provenance {
    ExplicitInclude,
    WorkspaceMember,
    ManifestDir,
    Dependency,
}

/// A starting path for directory traversal, with its provenance.  Roots may
/// overlap; the walker emits each discovered path once, first discovery
/// winning.
pub struct SearchRoot {
    pub path: Vec<u8>,
    pub provenance: Provenance,
}

/// The mathematical image of a search root.
#[verifier::ext_equal]
pub struct RootView {
    pub path: Seq<u8>,
    pub provenance: Provenance,
}

impl View for SearchRoot {
    type V = RootView;

    open spec fn view(&self) -> RootView {
        RootView { path: self.path@, provenance: self.provenance }
    }
}

/// The images of a sequence of search roots.
pub open spec fn root_views(s: Seq<SearchRoot>) -> Seq<RootView> {
    s.map_values(|r: SearchRoot| r@)
}

/// The search roots in their fixed order: the explicit includes, then each
/// workspace member joined onto the manifest's directory, then the
/// manifest's directory itself, then, when asked for, each declared local
/// dependency path joined the same way.
pub open spec fn roots_spec(
    includes: Seq<Vec<u8>>,
    parent: Seq<u8>,
    members: Seq<Seq<char>>,
    deps: Seq<Seq<char>>,
    with_dependencies: bool,
) -> Seq<RootView> {
    Seq::new(
        includes.len(),
        |i: int| RootView { path: includes[i]@, provenance: Provenance::ExplicitInclude },
    ) + Seq::new(
        members.len(),
        |i: int|
            RootView {
                path: join_spec(parent, encode_utf8(members[i])),
                provenance: Provenance::WorkspaceMember,
            },
    ) + seq![RootView { path: parent, provenance: Provenance::ManifestDir }] + (
    if with_dependencies {
        Seq::new(
            deps.len(),
            |i: int|
                RootView {
                    path: join_spec(parent, encode_utf8(deps[i])),
                    provenance: Provenance::Dependency,
                },
        )
    } else {
        Seq::empty()
    })
}

/// Copies a byte vector.
fn copy_bytes(src: &Vec<u8>) -> (r: Vec<u8>)
    ensures
        r@ == src@,
{
    let mut r: Vec<u8> = Vec::new();
    crate::bytes::push_bytes(&mut r, src.as_slice());
    proof {
        assert(r@ =~= src@);
    }
    r
}

/// Lays out the search roots as `roots_spec` gives them.
pub fn assemble_search_roots(
    includes: Vec<Vec<u8>>,
    manifest_parent: &Vec<u8>,
    members: &Vec<String>,
    dep_paths: &Vec<String>,
    with_dependencies: bool,
) -> (r: Vec<SearchRoot>)
    ensures
        root_views(r@) == roots_spec(
            includes@,
            manifest_parent@,
            strings_view(members@),
            strings_view(dep_paths@),
            with_dependencies,
        ),
{
    let ghost inc = includes@;
    let ghost inc_part = Seq::new(
        inc.len(),
        |i: int| RootView { path: inc[i]@, provenance: Provenance::ExplicitInclude },
    );
    let ghost mem_part = Seq::new(
        members@.len(),
        |i: int|
            RootView {
                path: join_spec(manifest_parent@, encode_utf8(members@[i]@)),
                provenance: Provenance::WorkspaceMember,
            },
    );
    let ghost dep_part = Seq::new(
        dep_paths@.len(),
        |i: int|
            RootView {
                path: join_spec(manifest_parent@, encode_utf8(dep_paths@[i]@)),
                provenance: Provenance::Dependency,
            },
    );
    let mut r: Vec<SearchRoot> = Vec::new();
    let n_inc: usize = includes.len();
    let mut includes = includes;
    let mut done: usize = 0;
    proof {
        assert(root_views(r@) =~= inc_part.take(0));
    }
    while includes.len() > 0
        invariant
            n_inc == inc.len(),
            done + includes@.len() == inc.len(),
            inc_part == Seq::new(
                inc.len(),
                |i: int| RootView { path: inc[i]@, provenance: Provenance::ExplicitInclude },
            ),
            forall|i: int| 0 <= i < includes@.len() ==> #[trigger] includes@[i] == inc[done + i],
            root_views(r@) =~= inc_part.take(done as int),
        decreases includes@.len(),
    {
        let ghost is = includes@;
        let ghost rv = r@;
        let p = includes.remove(0);
        proof {
            assert(is.remove(0) =~= is.drop_first());
            assert(p == is[0]);
            assert(p == inc[done as int]);
        }
        r.push(SearchRoot { path: p, provenance: Provenance::ExplicitInclude });
        proof {
            assert(root_views(r@) =~= root_views(rv).push(
                RootView { path: p@, provenance: Provenance::ExplicitInclude },
            ));
            assert(root_views(r@) =~= inc_part.take(done + 1));
        }
        done = done + 1;
    }
    let mut i: usize = 0;
    proof {
        assert(inc_part.take(done as int) =~= inc_part);
        assert(root_views(r@) =~= inc_part + mem_part.take(0));
    }
    while i < members.len()
        invariant
            0 <= i <= members@.len(),
            inc_part.len() == inc.len(),
            mem_part == Seq::new(
                members@.len(),
                |k: int|
                    RootView {
                        path: join_spec(manifest_parent@, encode_utf8(members@[k]@)),
                        provenance: Provenance::WorkspaceMember,
                    },
            ),
            root_views(r@) =~= inc_part + mem_part.take(i as int),
        decreases members@.len() - i,
    {
        let ghost rv = r@;
        let mb = string_to_bytes(&members[i]);
        let joined = crate::path::join_paths(manifest_parent, &mb);
        r.push(SearchRoot { path: joined, provenance: Provenance::WorkspaceMember });
        proof {
            assert(root_views(r@) =~= root_views(rv).push(mem_part[i as int]));
            assert(root_views(r@) =~= inc_part + mem_part.take(i + 1));
        }
        i = i + 1;
    }
    proof {
        assert(mem_part.take(members@.len() as int) =~= mem_part);
    }
    let ghost rv1 = r@;
    let parent = copy_bytes(manifest_parent);
    r.push(SearchRoot { path: parent, provenance: Provenance::ManifestDir });
    proof {
        assert(root_views(r@) =~= root_views(rv1).push(
            RootView { path: manifest_parent@, provenance: Provenance::ManifestDir },
        ));
        assert(root_views(r@) =~= inc_part + mem_part + seq![
            RootView { path: manifest_parent@, provenance: Provenance::ManifestDir },
        ]);
    }
    let ghost mid_part = inc_part + mem_part + seq![
        RootView { path: manifest_parent@, provenance: Provenance::ManifestDir },
    ];
    if with_dependencies {
        let mut i: usize = 0;
        proof {
            assert(root_views(r@) =~= mid_part + dep_part.take(0));
        }
        while i < dep_paths.len()
            invariant
                0 <= i <= dep_paths@.len(),
                dep_part == Seq::new(
                    dep_paths@.len(),
                    |k: int|
                        RootView {
                            path: join_spec(manifest_parent@, encode_utf8(dep_paths@[k]@)),
                            provenance: Provenance::Dependency,
                        },
                ),
                root_views(r@) =~= mid_part + dep_part.take(i as int),
            decreases dep_paths@.len() - i,
        {
            let ghost rv = r@;
            let db = string_to_bytes(&dep_paths[i]);
            let joined = crate::path::join_paths(manifest_parent, &db);
            r.push(SearchRoot { path: joined, provenance: Provenance::Dependency });
            proof {
                assert(root_views(r@) =~= root_views(rv).push(dep_part[i as int]));
                assert(root_views(r@) =~= mid_part + dep_part.take(i + 1));
            }
            i = i + 1;
        }
        proof {
            assert(dep_part.take(dep_paths@.len() as int) =~= dep_part);
            assert(root_views(r@) =~= roots_spec(
                inc,
                manifest_parent@,
                strings_view(members@),
                strings_view(dep_paths@),
                true,
            ));
        }
    } else {
        proof {
            assert(root_views(r@) =~= roots_spec(
                inc,
                manifest_parent@,
                strings_view(members@),
                strings_view(dep_paths@),
                false,
            ));
        }
    }
    r
}

/// The root resolver: parses the manifest bytes and lays out the search
/// roots from the explicit includes, the workspace members, the manifest's
/// directory and, when asked for, the declared local dependency paths.  It
/// succeeds exactly when the bytes parse as a manifest, and the layout of a
/// success is `roots_spec` over what the bytes declare.
pub fn resolve_roots(
    manifest: &Vec<u8>,
    manifest_parent: &Vec<u8>,
    includes: Vec<Vec<u8>>,
    with_dependencies: bool,
) -> (r: Result<Vec<SearchRoot>, ManifestError>)
    ensures
        r is Ok <==> manifest_parses(manifest@),
        r is Err ==> r->Err_0 == ManifestError::Unparsable,
        r is Ok ==> root_views(r->Ok_0@) == roots_spec(
            includes@,
            manifest_parent@,
            manifest_members(manifest@),
            somes(manifest_dep_paths(manifest@)),
            with_dependencies,
        ),
{
    if !parse_ok(manifest.as_slice()) {
        return Err(ManifestError::Unparsable);
    }
    let members = workspace_members(manifest.as_slice());
    let deps = if with_dependencies {
        let raw = dependency_paths(manifest.as_slice());
        let ghost raw_view = raw@;
        let present = keep_present(raw);
        proof {
            lemma_somes_view(raw_view);
            assert(strings_view(present@) == somes(manifest_dep_paths(manifest@)));
        }
        present
    } else {
        Vec::new()
    };
    let r = assemble_search_roots(includes, manifest_parent, &members, &deps, with_dependencies);
    proof {
        if !with_dependencies {
            // the dependency part is not consulted when it is not asked for
            assert(roots_spec(
                includes@,
                manifest_parent@,
                strings_view(members@),
                strings_view(deps@),
                false,
            ) == roots_spec(
                includes@,
                manifest_parent@,
                manifest_members(manifest@),
                somes(manifest_dep_paths(manifest@)),
                false,
            ));
        }
    }
    Ok(r)
}

} // verus!
